pub mod config;
pub mod config_history;
pub mod tenant;
pub mod user;
