//! Reading a stream in pieces.

pub mod chunker;
