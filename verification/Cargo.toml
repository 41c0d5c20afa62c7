[package]
name = "powsim"
version = "0.1.0"
edition = "2021"
publish = false

[dependencies]
ring = "*"
rand = "*"
tokio = { version = "*", features = ["full"] }
