//! The benchmarked weights of the pallets' calls.

pub mod pass;
pub mod payments;
pub mod pitch;
