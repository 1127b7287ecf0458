[package]
name = "stomper"
version = "0.1.0"
edition = "2021"
publish = false

[dependencies]
chrono = "0.4"
serde = { version = "1", features = ["derive"] }
thiserror = "2"
tokio = { version = "1", features = ["macros", "rt-multi-thread", "sync", "net", "signal"] }
axum = "0.8"
sqlx = { version = "0.8", default-features = false, features = ["sqlite", "runtime-tokio"] }
pcap = "*"

[dev-dependencies]
pnet_packet = "*"
