[package]
name = "ruster"
version = "0.1.0"
edition = "2021"
publish = false

[dependencies]
clap = { version = "4", features = ["derive"] }
colored = "2"
futures = "0.3"
indicatif = "0.17"
rand = "0.8"
reqwest = "0.12"
tokio = { version = "1", features = ["full"] }
