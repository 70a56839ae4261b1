//! Data carried through the argument: dense multilinear extensions, the eq
//! factorisation, sparse matrix extensions and the proof transcript.

pub mod eq;
pub mod ml_extension;
pub mod wire;
pub mod r1cs_reader;
