[package]
name = "gaze"
version = "0.1.0"
edition = "2021"
publish = false

[dependencies]
async-trait = "0.1"
avro-rs = "0.11"
derive_more = "0.99"
failure = "0.1"
fasthash = "0.4"
futures = "0.3"
rand = "0.7"
serde_json = "1"
sys-info = "0.7"
tokio = { version = "0.2", features = ["full"] }
