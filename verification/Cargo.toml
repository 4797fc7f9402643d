[package]
name = "hallucinator-core"
version = "0.1.0"
edition = "2021"
publish = false

[dependencies]
serde = { version = "1", features = ["derive"] }
thiserror = "*"
toml = "*"
dirs = "*"
tracing = "*"
tracing-subscriber = "*"
crossbeam-channel = "*"
fastrand = "*"
hound = "*"
