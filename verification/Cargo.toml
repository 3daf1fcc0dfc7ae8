[package]
name = "iris_gateway"
version = "0.1.0"
edition = "2021"
publish = false

[dependencies]
bincode = "=1.3.3"
bs58 = "=0.5.1"
base64 = "=0.23.1"
solana-sdk = "=5.0.0"
solana-system-interface = { version = "=3.3.0", features = ["bincode", "serde"] }
tokio = { version = "=1.53.2", features = ["rt-multi-thread", "time", "macros"] }
jsonrpsee = { version = "=0.26.1", features = ["server", "macros"] }
metrics = "=0.24.6"
tracing = "=0.1.44"
