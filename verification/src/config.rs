//! Stack configuration.

pub mod stack_config;
pub mod stack_config_brew;
pub mod sec_brew;
