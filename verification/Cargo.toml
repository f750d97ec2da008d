[package]
name = "rjs_config"
version = "0.1.0"
edition = "2021"
publish = false

[dependencies]
quick-xml = "*"
thiserror = "*"
clap = { version = "*", features = ["derive"] }
