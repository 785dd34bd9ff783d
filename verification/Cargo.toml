[package]
name = "troad"
version = "0.1.0"
edition = "2021"
publish = false

[dependencies]
aes = "0.8"
cfb8 = "0.8"
flate2 = "1"
sha1_smol = "1"
bnum = "*"
uuid = { version = "1", features = ["v4"] }
rand = "0.8"
rsa = "0.9"
serde = { version = "1", features = ["derive"] }
serde_json = "1"
dashmap = "*"
tokio = { version = "1", features = ["net", "io-util", "rt-multi-thread", "macros", "sync", "time"] }
reqwest = { version = "0.12", default-features = false, features = ["rustls-tls"] }
