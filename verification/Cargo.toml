[package]
name = "mcapi"
version = "0.1.0"
edition = "2021"
publish = false

[dependencies]
rand = "*"
serde = { version = "*", features = ["derive"] }
serde_json = "*"
tokio = { version = "*", features = ["net", "time", "rt", "rt-multi-thread", "io-util", "macros"] }
redis = { version = "*", features = ["tokio-comp"] }
redlock = "*"
