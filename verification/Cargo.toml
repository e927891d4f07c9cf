[package]
name = "mdash"
version = "0.1.0"
edition = "2021"
publish = false

[dependencies]
regex = "=1.13.1"
serde = { version = "=1.0.229", features = ["derive"] }
serde_json = "=1.0.154"
tokio = { version = "=1.54.1", features = ["rt", "rt-multi-thread", "time"] }
once_cell = "=1.21.4"
midir = "=0.11.1"
mlua = { version = "=0.12.2", features = ["lua54", "vendored", "send"] }
