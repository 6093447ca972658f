//! The sample NEAR contracts: their state and the decisions of each method,
//! with the runtime's part (caller, deposit, time, promise results) passed in
//! as values and the promises they create handed back as values.
pub mod table;
pub mod amm;
pub mod staking;
pub mod marketplace;
