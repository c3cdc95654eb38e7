[package]
name = "mihomo-manifold"
version = "0.1.0"
edition = "2021"
publish = false

[dependencies]
anyhow = "1"
async-channel = "2"
chrono = "0.4"
futures-util = "0.3"
gtk4 = "0.9"
libadwaita = { version = "0.7", features = ["v1_5"] }
ksni = "0.3"
reqwest = { version = "0.12", default-features = false, features = ["json", "stream", "rustls-tls"] }
serde = { version = "1", features = ["derive"] }
serde_json = "1"
serde_yaml = "0.9"
thiserror = "2"
tokio = { version = "1", features = ["rt-multi-thread", "time"] }
urlencoding = "2"
uuid = { version = "1", features = ["v4", "v5"] }
