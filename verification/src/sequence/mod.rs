pub mod model;
pub mod seqdb;
pub mod manager;
