pub mod kvapi;
pub mod sequence;
pub mod table;
