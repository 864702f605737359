[package]
name = "mcp_authorization"
version = "0.2.0"
edition = "2021"
publish = false

[dependencies]
rmcp = { version = "*", features = ["server"] }
schemars = "1"
serde = { version = "1", features = ["derive"] }
serde_json = "1"
syn = { version = "2", features = ["full"] }
quote = "1"
proc-macro2 = "1"
