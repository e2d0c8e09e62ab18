//! A verified interpreter for intcode programs: flat arrays of signed 64-bit
//! integers that encode variable-length instructions with per-parameter
//! addressing modes.
//!
//! The heart of the crate is [`machine::Interpreter`], a fetch-decode-execute
//! machine with a memory image grown at construction, a relocatable base
//! register, an input queue and a single-slot output channel.  Every public
//! operation carries a contract that pins the machine's next state down
//! exactly, via the mathematical transition function [`machine::spec_step`].

pub mod arcade;
pub mod laws;
pub mod loader;
pub mod machine;
pub mod maze;
pub mod runner;
