[package]
name = "mcp_serve"
version = "0.1.0"
edition = "2021"
publish = false

[dependencies]
serde_yaml_ng = "*"
serde_json = "*"
faccess = "*"
clap = { version = "*", features = ["derive"] }

[dev-dependencies]
tempfile = "*"
