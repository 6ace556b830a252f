[package]
name = "shooter_compute"
version = "0.1.0"
edition = "2021"
publish = false

[dependencies]
anyhow = "1"
linspace = "*"
rmpv = { version = "1", features = ["with-serde"] }
serde = { version = "1", features = ["derive"] }
sqlite = "*"
tokio = { version = "1", features = ["rt-multi-thread", "macros", "io-std", "io-util"] }
tracing = "0.1"
uom = "*"
