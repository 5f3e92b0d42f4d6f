[package]
name = "guild_node"
version = "0.1.0"
edition = "2021"
publish = false

[dependencies]
blake3 = "1"
sha2 = "0.10"
rand = "0.8"
uuid = { version = "1", features = ["v4"] }
hex = "0.4"
chrono = "0.4"
tokio = { version = "1", features = ["full"] }
quinn = "0.10"
rustls = { version = "0.21", features = ["dangerous_configuration"] }
rcgen = "0.11"
mdns-sd = "0.10"
crossterm = "0.27"
ratatui = "0.24"

[dev-dependencies]
bincode = "1.3"
serde = "1"
