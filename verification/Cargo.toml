[package]
name = "featherai"
version = "0.1.0"
edition = "2021"
publish = false

[dependencies]
argon2 = { version = "=0.5.3", features = ["std"] }
uuid = { version = "=1.29.0", features = ["v4"] }
iroh = "=1.4.1"
serde = { version = "=1.0.229", features = ["derive"] }
serde_json = "=1.0.154"
tokio = { version = "=1.54.1", features = ["rt-multi-thread", "macros", "time", "sync"] }
futures-lite = "=2.6.1"
tracing-subscriber = "=0.3.23"
