//! Circuit gadgets for reconstructing a canonical prime-field element from a
//! little-endian sequence of circuit bits, together with an exact cost and
//! output-mode oracle, and a small prover-solution record.

pub mod binary;
pub mod bits;
pub mod circuit;
pub mod field;
pub mod laws;
pub mod oracle;
pub mod reconstruct;
pub mod solution;
