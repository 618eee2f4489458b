[package]
name = "http3"
version = "0.1.0"
edition = "2021"
publish = false

[dependencies]
bytes = "1"
futures-util = { version = "0.3", default-features = false, features = ["std"] }
http = "1"
smallvec = "1"
tokio = { version = "1", default-features = false, features = ["sync"] }
