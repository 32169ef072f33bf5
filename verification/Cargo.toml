[package]
name = "hls_proxy"
version = "0.1.0"
edition = "2021"
publish = false

[dependencies]
url = "2"
reqwest = { version = "0.12", default-features = false, features = ["stream"] }
warp = { version = "0.3", default-features = false }
tokio = { version = "1", features = ["rt", "net", "time"] }
futures-util = "0.3"

[dev-dependencies]
base64 = "0.22"
