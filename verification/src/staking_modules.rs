//! The reward pools and the scoring strategy of each.

pub mod staking_module_type;
pub mod inventory;
pub mod default;
pub mod coding_division_sft_staking_module;
pub mod invalid;
pub mod snakes_sft_staking_module;
pub mod scoring;
pub mod staking_module_mapping;
