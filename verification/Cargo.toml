[package]
name = "hyperion"
version = "0.1.0"
edition = "2021"
publish = false

[dependencies]
chrono = { version = "0.4", default-features = false, features = ["std", "now"] }
futures = "0.3"
lazy_static = "1"
serde = { version = "1", features = ["derive"] }
serde_yaml = "0.9"
thiserror = "1"
tokio = { version = "1", features = ["net", "io-util", "rt-multi-thread", "macros", "sync"] }
