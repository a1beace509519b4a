[package]
name = "inventory_ledger"
version = "0.1.0"
edition = "2021"
publish = false

[dependencies]
uuid = { version = "*", features = ["v4"] }
chrono = "*"
libsql-client = "*"
tokio = { version = "*", features = ["rt-multi-thread", "macros"] }
serde = { version = "*", features = ["derive"] }
serde_json = "*"
anyhow = "*"
base64 = "*"
url = "*"
