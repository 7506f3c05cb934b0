[package]
name = "foodpipe"
version = "0.1.0"
edition = "2021"
publish = false

[dependencies]
iso3166 = "*"
brotli = "*"
anyhow = "1"
csv = "1"
flate2 = "1"
indicatif = "0.17"
tokio = { version = "1", features = ["full"] }
hyper = { version = "1", features = ["full"] }
hyper-util = { version = "0.1", features = ["full"] }
http-body-util = "0.1"
rustls = "0.21"
tokio-rustls = "0.24"
rcgen = "0.11"
time = "0.3"
tracing = "0.1"
tracing-subscriber = "0.3"

[dev-dependencies]
serde_json = "1"
