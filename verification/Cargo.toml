[package]
name = "scriptor-crdt"
version = "0.1.0"
edition = "2021"
publish = false

[dependencies]
loro = "=1.17.1"
quick-xml = "=0.41.0"
serde_json = "=1.0.154"
