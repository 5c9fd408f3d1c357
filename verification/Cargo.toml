[package]
name = "city_chain"
version = "0.1.0"
edition = "2021"
publish = false

[dependencies]
base64 = "=0.21.7"
chrono = "=0.4.45"
futures = "=0.3.34"
hex = "=0.4.3"
mongodb = "=2.8.2"
ntru = "=0.5.6"
prost = "0.13"
rand = "=0.8.8"
reqwest = { version = "=0.12.28", default-features = false, features = ["json"] }
rocket = { version = "=0.5.2", features = ["json"] }
serde = { version = "=1.0.229", features = ["derive"] }
serde_json = "=1.0.154"
sha2 = "=0.10.9"
tonic = { version = "0.12", default-features = false, features = ["channel", "codegen", "prost"] }
tokio = { version = "=1.54.1", features = ["rt-multi-thread", "macros", "time", "sync"] }
uuid = { version = "=1.29.0", features = ["v4"] }
