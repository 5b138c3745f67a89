[package]
name = "sshctx"
version = "0.1.0"
edition = "2021"
publish = false

[dependencies]
anyhow = "1"
async-trait = "0.1"
bytes = "1"
clap = { version = "4", features = ["derive"] }
dirs = "*"
hex = "0.4"
ignore = "0.4"
rmcp = { version = "*", features = ["server", "macros", "transport-io"] }
schemars = "1"
serde = { version = "1", features = ["derive"] }
serde_json = { version = "1", features = ["float_roundtrip"] }
sha2 = "*"
thiserror = "2"
tokio = { version = "1", features = ["full"] }
toml = "*"
uuid = { version = "1", features = ["v4"] }
