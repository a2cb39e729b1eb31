[package]
name = "vfriend"
version = "0.1.0"
edition = "2021"
publish = false

[dependencies]
chrono = "*"
iroh = "*"
tokio = { version = "*", features = ["rt-multi-thread", "macros", "sync", "time", "io-util"] }
futures-lite = "*"
serde = { version = "*", features = ["derive"] }
serde_json = "*"
