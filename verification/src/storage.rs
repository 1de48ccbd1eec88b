//! What the ledger keeps: the configuration, the score table and the data of
//! each staker.

pub mod config;
pub mod score;
pub mod user_data;
