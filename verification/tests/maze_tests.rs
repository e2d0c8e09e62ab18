use intcode::machine::InterpreterError;
use intcode::maze::{Dir, Game, Tile};

#[test]
fn fresh_game_is_unexplored() {
    // any program will do; this one replies 1 to every movement command
    let game = Game::new(vec![3, 7, 104, 1, 1105, 1, 0, 0]);
    assert_eq!(game.pos, (21, 21));
    for row in game.grid.iter() {
        for cell in row.iter() {
            assert_eq!(*cell, (Tile::Unknown, 0));
        }
    }
}

#[test]
fn droid_replies_to_commands() {
    // reads a command, replies 1 (moved), and loops
    let mut game = Game::new(vec![3, 7, 104, 1, 1105, 1, 0, 0]);
    assert_eq!(
        game.pc.step_loop(1000),
        Some(Err(InterpreterError::NoInputError))
    );
    game.pc.input_buffer.push_back(Dir::N.command());
    assert_eq!(game.pc.step_loop(1000), Some(Ok(1)));
    game.pc.input_buffer.push_back(Dir::E.command());
    assert_eq!(game.pc.step_loop(1000), Some(Ok(1)));
}

#[test]
fn directions_pair_up() {
    assert_eq!(Dir::N.command(), 1);
    assert_eq!(Dir::S.command(), 2);
    assert_eq!(Dir::W.command(), 3);
    assert_eq!(Dir::E.command(), 4);
    assert_eq!(Dir::N.reverse().command(), 2);
    assert_eq!(Dir::S.reverse().command(), 1);
    assert_eq!(Dir::W.reverse().command(), 4);
    assert_eq!(Dir::E.reverse().command(), 3);
}
