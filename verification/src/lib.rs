//! A bidirectional codec framework: typed values are written to, and read back
//! from, an abstract representation tree supplied by a backend.

pub mod dynamic;
pub mod fixers;
pub mod number;
pub mod result;
pub mod serialization;
pub mod tree;
