//! Simulation of meiotic recombination: the genome of an offspring is
//! put together from the haplotypes of two parents, with crossovers laid
//! along a genetic map, and written as the list of variants that the
//! offspring carries.
//!
//! The library is free of floating point and of input and output. Files
//! come in as bytes and go out as text; genetic distances come in as the
//! bit patterns of doubles; the number of crossovers between two points
//! of a map, which is drawn from a Poisson distribution, comes in from the
//! caller.

pub mod bytes;
pub mod io;
pub mod mapfile;
pub mod names;
pub mod numbers;
pub mod order;
pub mod recombination;
pub mod rng;
pub mod table;
pub mod text;
pub mod timeline;
pub mod utils;
pub mod variants;
pub mod workflows;
