//! A minimal interpreter for a tape-based esoteric instruction language:
//! eight single-character operators over a sparse, unbounded byte tape.
//!
//! The mathematical semantics of the machine live in [`semantics`]; the
//! executable interpreter, proved against that semantics, lives in
//! [`interpreter`]; general laws of the semantics are proved in [`laws`].

pub mod interpreter;
pub mod laws;
pub mod semantics;
