[package]
name = "matcher"
version = "0.1.0"
edition = "2021"
publish = false

[dependencies]
rust_decimal = "=1.43.0"
serde_json = "=1.0.154"
serde = { version = "=1.0.229", features = ["derive"] }
redis = "=0.25.5"
tokio = { version = "=1.54.1", features = ["macros", "rt-multi-thread", "sync", "time"] }
tonic = "=0.12.3"
prost = { version = "=0.13.5", features = ["derive"] }
reqwest = { version = "=0.12.28", default-features = false, features = ["json", "stream"] }
futures = "=0.3.34"
chrono = "=0.4.45"
