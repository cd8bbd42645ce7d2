[package]
name = "worksmith"
version = "0.1.0"
edition = "2021"
publish = false

[dependencies]
anyhow = "=1.0.104"
async-trait = "=0.1.92"
clap = { version = "=4.6.7", features = ["derive"] }
dirs = "=6.0.0"
futures-util = "=0.3.34"
libc = "=0.2.191"
regex = "=1.13.1"
reqwest = { version = "=0.12.28", default-features = false, features = ["json", "stream", "rustls-tls"] }
rmcp = { version = "=3.8.0", default-features = false, features = ["client", "transport-async-rw"] }
rusqlite = { version = "=0.32.1", features = ["bundled"] }
rustyline = "=19.0.0"
serde = { version = "=1.0.229", features = ["derive"] }
serde_json = "=1.0.154"
sha2 = "=0.10.9"
similar = "=2.7.0"
tokio = { version = "=1.54.1", features = ["full"] }
tokio-util = "=0.7.20"
toml = "=0.8.23"
uuid = { version = "=1.29.0", features = ["v4"] }

[dev-dependencies]
tempfile = "=3.27.0"
