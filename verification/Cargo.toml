[package]
name = "casm"
version = "0.2.0"
edition = "2021"
publish = false

[dependencies]
petgraph = "=0.8.3"
serde = { version = "=1.0.229", features = ["derive"] }
serde_json = "=1.0.154"
serde_yaml_ng = "=0.10.0"
sha3 = "0.10"
toml = "=1.1.8"
tokio = { version = "=1.54.1", features = ["io-std", "macros", "rt-multi-thread"] }
tower-lsp-server = "=0.23.0"
