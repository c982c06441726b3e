[package]
name = "secret_populator"
version = "1.0.0"
edition = "2021"
publish = false

[dependencies]
anyhow = "1"
clap = "2"
log = "0.4"
rusoto_core = "0.48"
rusoto_secretsmanager = "0.48"
serde_json = "1"
tokio = { version = "1", features = ["rt-multi-thread"] }

[dev-dependencies]
regex = "1"
