[package]
name = "chat_relay"
version = "0.1.0"
edition = "2021"
publish = false

[dependencies]
openssl = "0.10"
tokio = { version = "1", default-features = false, features = ["rt-multi-thread", "net", "io-util", "io-std", "sync"] }
