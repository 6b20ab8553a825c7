[package]
name = "sql_lineage"
version = "0.1.0"
edition = "2021"
publish = false

[dependencies]
tower-lsp = "*"
tokio = { version = "*", features = ["full"] }
async-process = "*"
async-std = "*"
serde = { version = "*", features = ["derive"] }
serde_json = "*"
walkdir = "*"
