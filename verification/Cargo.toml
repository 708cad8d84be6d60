[package]
name = "rnacos_raft"
version = "0.1.0"
edition = "2021"
publish = false

[dependencies]
quick-protobuf = "0.8"
serde = { version = "1", features = ["derive"] }
serde_json = "1"
binrw = "*"
rsql_builder = "*"
anyhow = "1"
