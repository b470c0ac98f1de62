[package]
name = "zksolc_driver"
version = "0.1.0"
edition = "2021"
publish = false

[dependencies]
clap = { version = "4", features = ["derive"] }
eyre = "0.6"
foundry-config = "*"
serde = { version = "1", features = ["derive"] }
