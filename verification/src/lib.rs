//! The sixty-four hexagrams of the I Ching as six-line figures, the operations
//! that turn one hexagram into another, and an exact search for the shortest
//! chains of operations between two hexagrams.

pub mod analysis;
pub mod casting;
pub mod error;
pub mod frontier;
pub mod hexagram;

pub mod line;
pub mod operation;
pub mod path;
pub mod reading;
pub mod search;
pub mod sequence;
pub mod trigram;
