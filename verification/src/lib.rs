//! Proving-time witness and hardware-abstraction core of a zero-knowledge
//! virtual-machine prover, over the BabyBear prime field.
//!
//! The witness generator materializes the execution witness as three
//! column-major buffers and drives the three-pass pipeline; the
//! hardware-abstraction layer supplies the transform, fold, and hashing
//! primitives the surrounding prover consumes.

pub mod buffer;
pub mod circuit;
pub mod ext;
pub mod fp;
pub mod hal;
pub mod hash;
pub mod loader;
pub mod machine;
pub mod ntt;
pub mod rng;
pub mod sort;
pub mod witgen;
