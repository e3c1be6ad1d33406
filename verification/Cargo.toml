[package]
name = "ip_attribution"
version = "0.1.0"
edition = "2021"
publish = false

[dependencies]
clap = "3.0"
csv = "1"
serde = { version = "1", features = ["derive"] }
