[package]
name = "aws_login"
version = "0.1.0"
edition = "2021"
publish = false

[dependencies]
carli = "*"
clap = { version = "*", features = ["derive"] }
home = "*"
requestty = "*"
reqwest = { version = "*", default-features = false, features = ["blocking"] }
serde_json = "*"
which = "*"
