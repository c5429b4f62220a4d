[package]
name = "versionhub"
version = "0.1.0"
edition = "2021"
publish = false

[dependencies]
semver = "1"
roxmltree = "*"
serde_json = "1"
serde = { version = "1", features = ["derive"] }
clap = { version = "4", features = ["derive"] }
tokio = { version = "1", features = ["macros", "rt-multi-thread"] }
futures = "0.3"
log = "0.4"
env_logger = "*"
reqwest = { version = "0.12", default-features = false, features = ["rustls-tls"] }
