//! Enumerates the rotation sequences of bounded length that take one
//! configuration of a 3x3x3 cube to another.
//!
//! A configuration is packed into a 150-bit word, three bits per facelet, and
//! a quarter turn is a short program of masks, shifts and XORs on that word.
//! The search meets in the middle: a forward pass records the configurations
//! reachable in half the moves, a backward pass looks for them from the target.
//!
//! The modules, from the ground up:
//!
//! - `face`, `rotation`: the six faces and the twelve quarter turns;
//! - `side`: colours, and a face as a grid of colours;
//! - `packed`: the 192-bit word and the operations on it, which are `bnum`'s;
//! - `layout`: where the facelets lie in the word, and where a turn takes
//!   each of them;
//! - `turns`, `cells`: the programs of the twelve turns, and the reading and
//!   writing of single facelets, with their proofs;
//! - `cube`: the configuration itself, read from text, turned, shown;
//! - `solution`: sequences of turns, their order, and the two tests for
//!   wasted turns;
//! - `state_set`: a set of configurations;
//! - `search`: what the search gives, and what holds of it;
//! - `solver`: the search for one length;
//! - `driver`: the search for a range of lengths.
mod cells;
pub mod cube;
pub mod driver;
pub mod face;
pub mod layout;
pub mod packed;
pub mod rotation;
pub mod search;
pub mod side;
pub mod solution;
pub mod solver;
pub mod state_set;
mod turns;
