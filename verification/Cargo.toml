[package]
name = "ec2hx"
version = "0.1.0"
edition = "2021"
publish = false

[dependencies]
toml_edit = "*"
clap = { version = "*", features = ["derive"] }
directories = "*"
etcetera = "*"
reqwest = { version = "*", default-features = false, features = ["blocking", "rustls-tls"] }
