//! Step circuits for incremental verifiable computation.
//!
//! Three computation kernels — the MinRoot verifiable-delay function, a
//! Poseidon hash chain, and a chain of elliptic-curve scalar multiplications —
//! are expressed twice: as a native witness computation and as a constraint
//! system over the scalar field of the bn254 curve. A driver threads a
//! fixed-arity state vector through a sequence of such steps; an external
//! folding backend turns each step into one fold of a running proof.

pub mod errors;
pub mod field;
pub mod r1cs;
pub mod minroot;
pub mod hashchain;
pub mod scalar_mul;
pub mod driver;
