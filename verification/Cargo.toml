[package]
name = "llaunchpad"
version = "0.7.0"
edition = "2021"
publish = false

[dependencies]
anyhow = "1"
serde = { version = "1", features = ["derive"] }
serde_json = "1"
reqwest = { version = "0.12", default-features = false, features = ["json", "rustls-tls"] }
sysinfo = "0.33"
tokio = { version = "1", features = ["rt-multi-thread", "macros", "time"] }
