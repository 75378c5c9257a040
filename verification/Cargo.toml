[package]
name = "couchbase_shell"
version = "0.1.0"
edition = "2021"
publish = false

[dependencies]
regex = "1"
serde = { version = "1", features = ["derive"] }
serde_json = "1"
couchbase = "1.0.0-alpha.4"
