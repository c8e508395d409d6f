//! Accounting core of a lending protocol: a fixed-point decimal, utilization-driven rate
//! curves, a lending pool whose deposit and loan indices compound between epochs, a weekly
//! validator-yield estimator that floors the stable rate, and a pool of delegated stake.

pub mod address;
pub mod decimal;
pub mod error;
pub mod interest;
pub mod keeper;
pub mod lending;
pub mod staking;
pub mod utils;
