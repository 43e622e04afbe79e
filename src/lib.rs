//! A MinRoot verifiable delay function over the Pasta scalar fields, the
//! composition of its evaluations, and the chains of inverse-round steps that a
//! folding scheme proves: their planning and their out-of-circuit check. Beside
//! them stand small pieces of witness logic: a Fibonacci step, the bit
//! decomposition of limbs, and a password policy.
pub mod field;
pub mod minroot;
pub mod circuit;
pub mod chain;
pub mod password;
pub mod bits;
pub mod fibonacci;
