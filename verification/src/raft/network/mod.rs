pub mod management;
