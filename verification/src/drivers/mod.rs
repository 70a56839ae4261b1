//! Adapters that feed frontend data into the argument system.

pub mod r1cs_reader;
