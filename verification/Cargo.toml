[package]
name = "mdsmedia"
version = "0.1.0"
edition = "2021"
publish = false

[dependencies]
url = "2"
serde_json = "1"
serde = { version = "1", features = ["derive"] }
reqwest = { version = "0.12", default-features = false, features = ["rustls-tls"] }
tokio = { version = "1", features = ["rt-multi-thread", "time", "net"] }
futures-util = { version = "0.3", default-features = false, features = ["std"] }
thiserror = "1"
clap = { version = "4", features = ["derive"] }
