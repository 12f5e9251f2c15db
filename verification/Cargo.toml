[package]
name = "http_server"
version = "0.1.0"
edition = "2021"
publish = false

[dependencies]
anyhow = "1"
clap = "4"
tokio = { version = "1", features = ["rt-multi-thread", "macros", "net", "io-util", "fs"] }
