//! Scripted test scenarios for the whitebox harness, and the random draws
//! that shade them.

pub mod random;
pub mod test_case;
