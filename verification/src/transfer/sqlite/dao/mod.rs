pub mod config_history;
pub mod tenant;
