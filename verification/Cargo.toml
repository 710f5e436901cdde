[package]
name = "frame_relay"
version = "0.1.0"
edition = "2021"
publish = false

[dependencies]
actix-web = "4"
futures = "0.3"
serde = { version = "1", features = ["derive"] }
tokio = { version = "1", features = ["time"] }
