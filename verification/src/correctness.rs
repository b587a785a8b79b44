//! Scripted test scenarios for the blackbox harness, and the random draws
//! that shade them.

pub mod bft_test;
pub mod random;
