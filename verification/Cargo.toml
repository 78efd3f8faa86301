[package]
name = "openuuyc"
version = "0.1.0"
edition = "2021"
publish = false

[dependencies]
anyhow = "=1.0.104"
arboard = "=3.7.0"
egui = "=0.37.0"
object = "=0.40.0"
serde = { version = "=1.0.229", features = ["derive"] }
serde_json = "=1.0.154"
tracing = "=0.1.44"
uuid = { version = "1", features = ["v4"] }
