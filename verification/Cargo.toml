[package]
name = "petroleum"
version = "0.1.0"
edition = "2021"
publish = false

[dependencies]
chrono = "*"
async-trait = "*"
diesel = { version = "1.4", features = ["postgres"] }
futures = "*"
tokio = { version = "*", features = ["full"] }
twilight-gateway = "0.8"
twilight-http = "0.8"
twilight-model = "0.8"
