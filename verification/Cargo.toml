[package]
name = "faqih_ai"
version = "0.1.0"
edition = "2021"
publish = false

[dependencies]
serde = { version = "1", features = ["derive"] }
serde_json = "1"
regex = "1"
num_cpus = "1"
pdf-extract = "*"
zip = "2"
dirs = "*"
rusqlite = { version = "*", features = ["bundled"] }
chrono = "0.4"
uuid = { version = "1", features = ["v4"] }
thiserror = "*"
tracing = "0.1"
parking_lot = "0.12"
reqwest = { version = "0.12", default-features = false, features = ["rustls-tls", "stream"] }
futures-util = "0.3"
tokio = { version = "1", features = ["rt-multi-thread"] }
sysinfo = "*"
encoding_rs = "0.8"
