//! An evolutionary sandbox: creatures steered by a tiny bytecode machine,
//! their genomes copied with point mutations, and a turn scheduler that ages,
//! reproduces, culls and repopulates them inside a bounded arena.

pub mod bf;
pub mod component;
pub mod dna;
pub mod pipeline;
pub mod placement;
pub mod simulation;
pub mod units;

mod random;

