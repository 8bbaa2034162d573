[package]
name = "iris_lib"
version = "0.1.0"
edition = "2021"
publish = false

[dependencies]
clap = { version = "3.2", features = ["derive"] }
image = { version = "0.24", default-features = false, features = ["png", "jpeg", "gif", "bmp"] }
