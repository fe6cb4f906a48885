[package]
name = "mars_rover"
version = "0.1.0"
edition = "2021"
publish = false

[dependencies]
rand = "0.8"
bracket-noise = "0.8"
flume = "0.11"
uuid = { version = "1", features = ["v4"] }
tokio = { version = "1", features = ["full"] }
serde_json = "1"
axum = "0.6"
axum-server = "0.5"
tower-http = { version = "0.4", features = ["fs"] }
