//! Logic core of a match-3 puzzle with revolving symbols.
//!
//! A rectangular grid holds symbols, each of which shows one of four faces.
//! The player swaps neighbouring cells to line up three or more symbols of
//! the same visible type; matched cells are cleared, the rest fall down, and
//! the gaps are refilled. From time to time every symbol turns to its next
//! face at once.
//!
//! - [`symbols`]: the symbol types, the symbols and the grid.
//! - [`matching`]: finding the runs of three or more.
//! - [`gravity`]: what it means that the symbols have fallen.
//! - [`board`]: the state of a game and the steps of a turn.
//!
//! The functions here carry contracts that Verus proves. The one exception
//! is the draw of a random number, a call into `rand` whose contract is
//! taken on trust. Rendering, animation and input handling live outside of
//! this crate and drive it through the entry points of [`board::GameBoard`].

pub mod board;
pub mod gravity;
pub mod matching;
pub mod symbols;
