//! Program operations: the evidence a program simulation is signed over.
pub mod program;
