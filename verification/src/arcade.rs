//! The arcade cabinet: the decisions a driver needs while playing the
//! block-breaking game that an intcode program draws in triples of
//! outputs.

use crate::machine::VALUE;
use vstd::prelude::*;

verus! {

/// What one cell of the arcade screen shows.
#[derive(Clone, Copy, Debug, PartialEq, Eq, Structural)]
pub enum Tile {
    Empty,
    Wall,
    Block,
    Paddle,
    Ball,
}

/// The tile named by the third value of a draw triple, or `None` for a
/// value outside the screen's vocabulary.
pub fn tile_of(val: VALUE) -> (r: Option<Tile>)
    ensures
        r == (if val == 0 {
            Some(Tile::Empty)
        } else if val == 1 {
            Some(Tile::Wall)
        } else if val == 2 {
            Some(Tile::Block)
        } else if val == 3 {
            Some(Tile::Paddle)
        } else if val == 4 {
            Some(Tile::Ball)
        } else {
            None::<Tile>
        }),
{
    match val {
        0 => Some(Tile::Empty),
        1 => Some(Tile::Wall),
        2 => Some(Tile::Block),
        3 => Some(Tile::Paddle),
        4 => Some(Tile::Ball),
        _ => None,
    }
}

/// The joystick command that chases the ball: tilt toward the ball's
/// column, and stay put only when paddle and ball coincide.
pub fn joystick(paddle: (usize, usize), ball: (usize, usize)) -> (r: VALUE)
    ensures
        r == (if paddle.0 > ball.0 {
            -1
        } else if paddle == ball {
            0
        } else {
            1int
        }),
{
    if paddle.0 > ball.0 {
        -1
    } else if paddle.0 == ball.0 && paddle.1 == ball.1 {
        0
    } else {
        1
    }
}

} // verus!
