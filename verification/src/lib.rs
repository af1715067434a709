//! A verifiable delay function after Wesolowski, over the group of integers
//! modulo an RSA modulus whose factors nobody knows.
//!
//! Evaluating the function takes `t` squarings, one after the other; the
//! result comes with a short proof that is checked in far less time. The
//! challenge of the proof is a prime that is derived by hashing, so that no
//! interaction is needed.

#![allow(non_snake_case)]

pub mod encoding;
pub mod bigint;
pub mod keccak256;
pub mod relation;
pub mod utilities;
pub mod wesolowski;
pub mod serialized;

pub use crate::serialized::SerializedVDFParameter;
pub use crate::serialized::SerializedVDFProof;
pub use crate::wesolowski::SetupForVDF;
pub use crate::wesolowski::SolvedVDF;
pub use crate::wesolowski::UnsolvedVDF;
