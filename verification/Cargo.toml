[package]
name = "yawmak"
version = "1.1.2"
edition = "2021"
publish = false

[dependencies]
chrono = "0.4"
clap = "4"
clap_complete = "4"
duckdb = "*"
prettytable-rs = "0.10"
serde = { version = "1", features = ["derive"] }
