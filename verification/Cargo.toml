[package]
name = "pixpull"
version = "0.1.0"
edition = "2021"
publish = false

[dependencies]
anyhow = "1"
clap = { version = "4", features = ["derive"] }
futures = "0.3"
httpdate = "1"
rand = "0.9"
reqwest = { version = "0.12", default-features = false, features = ["rustls-tls", "stream", "http2"] }
serde = { version = "1", features = ["derive"] }
tokio = { version = "1", features = ["rt-multi-thread", "macros", "fs", "io-util", "sync", "time"] }
toml = "0.8"
url = "2"
