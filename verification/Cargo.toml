[package]
name = "oicq4r"
version = "0.1.0"
edition = "2021"
publish = false

[dependencies]
md5 = "=0.7.0"
rand = "=0.8.8"
base64 = "=0.13.1"
flate2 = "=1.1.10"
tokio = { version = "=1.54.1", features = ["full"] }
hyper = { version = "=0.14.32", features = ["full"] }
hyper-tls = "=0.5.0"
reqwest = "=0.11.27"
serde_json = "=1.0.154"
log = "=0.4.35"
fern = "=0.6.2"
chrono = "=0.4.45"
async-recursion = "=1.2.0"
pin-project-lite = "=0.2.17"
image = { version = "=0.24.9", default-features = false, features = ["png", "jpeg", "gif", "webp", "bmp"] }

[dev-dependencies]
protobuf = "3"
