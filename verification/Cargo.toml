[package]
name = "zentrio_downloads"
version = "0.1.0"
edition = "2021"
publish = false

[dependencies]
m3u8-rs = "*"
uuid = { version = "*", features = ["v4"] }
reqwest = { version = "*", default-features = false }
tokio = { version = "*", features = ["rt-multi-thread", "macros", "fs", "time", "io-util"] }
futures-util = "*"
serde = { version = "*", features = ["derive"] }
rusqlite = { version = "*", features = ["bundled"] }
