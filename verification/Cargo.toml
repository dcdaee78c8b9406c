[package]
name = "rav1e_by_gop"
version = "0.1.0"
edition = "2021"
publish = false

[dependencies]
crossbeam-channel = "0.5"
rav1e = { version = "0.7", default-features = false }
serde = { version = "1", features = ["derive"] }
tungstenite = "0.21"
uuid = { version = "1", features = ["serde"] }
