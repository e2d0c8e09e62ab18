//! The remote-controlled exploration game: a droid driven by an intcode
//! program walks an unknown grid maze.  The crate models the game's state —
//! the machine, the map as far as it is known, and the droid's position —
//! and a driver explores by sending movement commands and reading status
//! replies.

use crate::machine::{Interpreter, VALUE};
use crate::runner::initial_state;
use std::collections::VecDeque;
use vstd::prelude::*;

verus! {

/// A movement command for the droid.
#[derive(Clone, Copy, Debug, PartialEq, Eq, Structural)]
pub enum Dir {
    N,
    S,
    W,
    E,
}

/// The command code a direction is sent as.
pub open spec fn dir_code(d: Dir) -> int {
    match d {
        Dir::N => 1,
        Dir::S => 2,
        Dir::W => 3,
        Dir::E => 4,
    }
}

impl Dir {
    /// The input value that asks the droid to move this way.
    pub fn command(&self) -> (c: VALUE)
        ensures
            c == dir_code(*self),
    {
        match self {
            Dir::N => 1,
            Dir::S => 2,
            Dir::W => 3,
            Dir::E => 4,
        }
    }

    /// The direction that undoes a move this way.
    pub fn reverse(&self) -> (r: Dir)
        ensures
            dir_code(r) + dir_code(*self) == 3 || dir_code(r) + dir_code(*self) == 7,
            r != *self,
    {
        match self {
            Dir::N => Dir::S,
            Dir::S => Dir::N,
            Dir::W => Dir::E,
            Dir::E => Dir::W,
        }
    }
}

/// What is known of one cell of the maze.
#[derive(Clone, Copy, Debug, PartialEq, Eq, Structural)]
pub enum Tile {
    Empty,
    Wall,
    Goal,
    Unknown,
}

/// The exploration game: the droid's control program, the map as far as it
/// has been discovered (each cell with its distance from the start), and
/// the droid's position.
pub struct Game {
    /// The droid's control program.
    pub pc: Interpreter,
    /// Each cell's tile and its walking distance from the start.
    pub grid: [[(Tile, usize); 41]; 41],
    /// The droid's position, `(column, row)`.
    pub pos: (usize, usize),
}

impl Game {
    /// Sets the game up: the control program loaded with an empty input
    /// queue, an entirely unknown map, and the droid at the center.
    pub fn new(data: Vec<VALUE>) -> (g: Game)
        requires
            data@.len() * 10 <= usize::MAX,
        ensures
            g.pc@ == initial_state(data@, Seq::<VALUE>::empty()),
            g.pos == (21usize, 21usize),
            forall|y: int, x: int|
                0 <= y < 41 && 0 <= x < 41 ==> #[trigger] g.grid@[y]@[x] == (
                    Tile::Unknown,
                    0usize,
                ),
    {
        let pc = Interpreter::new(data, VecDeque::new());
        proof {
            assert(pc@ =~= initial_state(data@, Seq::<VALUE>::empty()));
        }
        Game { pc, grid: [[(Tile::Unknown, 0usize); 41]; 41], pos: (21, 21) }
    }
}

} // verus!
