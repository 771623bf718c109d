[package]
name = "mtga_me"
version = "0.1.0"
edition = "2021"
publish = false

[dependencies]
regex = "1"
thiserror = "1"
tracing = "0.1"
tracing-subscriber = "0.3"
image = { version = "0.24", default-features = false, features = ["png"] }
once_cell = "1"
