use intcode::arcade::{joystick, tile_of, Tile};

#[test]
fn decodes_every_tile() {
    assert_eq!(tile_of(0), Some(Tile::Empty));
    assert_eq!(tile_of(1), Some(Tile::Wall));
    assert_eq!(tile_of(2), Some(Tile::Block));
    assert_eq!(tile_of(3), Some(Tile::Paddle));
    assert_eq!(tile_of(4), Some(Tile::Ball));
    assert_eq!(tile_of(5), None);
    assert_eq!(tile_of(-1), None);
}

#[test]
fn joystick_chases_the_ball() {
    assert_eq!(joystick((10, 5), (3, 5)), -1);
    assert_eq!(joystick((10, 5), (10, 5)), 0);
    assert_eq!(joystick((3, 5), (10, 5)), 1);
    // same column but different row: keep moving, as the paddle has not
    // caught the ball
    assert_eq!(joystick((10, 5), (10, 4)), 1);
}
