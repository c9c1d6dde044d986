[package]
name = "dex"
version = "0.1.0"
edition = "2021"
publish = false

[dependencies]
serde = { version = "1", features = ["derive"] }
thiserror = "1"
rand = "0.8"
getrandom = "0.2"
