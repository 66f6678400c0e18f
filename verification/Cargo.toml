[package]
name = "kalosm"
version = "0.1.0"
edition = "2021"
publish = false

[dependencies]
tokenizers = "=0.23.2"
tokio = { version = "=1.53.2", default-features = false, features = ["sync", "rt"] }
serde = { version = "=1.0.229", features = ["derive"] }
serde_json = "=1.0.151"
thiserror = "=2.0.21"
reqwest = { version = "=0.12.28", default-features = false, features = ["json", "stream"] }
reqwest-eventsource = "=0.6.0"
futures-channel = "=0.3.34"
futures-util = "=0.3.34"
image = { version = "=0.25.10", default-features = false }
