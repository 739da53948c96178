[package]
name = "chatlib"
version = "0.1.0"
edition = "2021"
publish = false

[dependencies]
serde = { version = "*", features = ["derive"] }
envy = "*"
image = "*"
fastrand = "*"
tracing = "*"
tracing-subscriber = "*"
