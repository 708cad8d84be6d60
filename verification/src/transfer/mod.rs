pub mod data_to_sqlite;
pub mod model;
pub mod mysql;
pub mod mysql_to_data;
pub mod sqlite;
