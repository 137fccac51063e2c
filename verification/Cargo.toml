[package]
name = "kser"
version = "0.1.0"
edition = "2021"
publish = false

[dependencies]
uuid = { version = "=1.27.0", features = ["v4"] }
rand = "=0.8.8"
hostname = "=0.3.1"
rdkafka = "=0.36.2"
futures = "=0.3.34"
log = "=0.4.34"
env_logger = "=0.11.11"
cdumay_error = "=0.2.1"
cdumay_result = "=0.3.0"

[dev-dependencies]
serde_json = "1"
