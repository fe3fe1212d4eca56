//! Decoder for Groth16 proving-key files and a compact cache encoding of
//! the structures decoded from them.
//!
//! A proving-key file is a directory of tagged byte ranges. This crate
//! reads the directory, the circuit header, the curve points and the
//! constraint coefficients out of a byte slice, and assembles a proving
//! key together with its constraint matrices. Every decoder is a total
//! function of the input bytes whose result, error included, is pinned by
//! a specification function over `Seq<u8>`.

pub mod bytes;
pub mod error;
pub mod field;
pub mod curve;
pub mod section;
pub mod header;
pub mod matrix;
pub mod zkey;
pub mod cache;
pub mod cache_laws;
pub mod utils;
pub mod cell;
pub mod session;
pub mod ffi;
