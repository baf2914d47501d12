[package]
name = "rusty_link"
version = "0.1.0"
edition = "2021"
publish = false

[dependencies]
hex = "=0.4.3"
rand = "=0.8.8"
chrono = "=0.4.45"
thiserror = "=1.0.69"
tokio = { version = "1", default-features = false, features = ["sync"] }
