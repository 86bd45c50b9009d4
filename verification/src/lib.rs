//! A small PLONK-style constraint system with a mock checker, and the
//! Fibonacci relation laid out on it.
pub mod assignment;
pub mod checker;
pub mod circuit;
pub mod circuit_config;
pub mod column;
pub mod constraint_system;
pub mod expr;
pub mod field;
pub mod gate;
pub mod laws;
