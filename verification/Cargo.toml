[package]
name = "socks5_proxy"
version = "0.1.0"
edition = "2021"
publish = false

[dependencies]
mio = { version = "0.8", features = ["net", "os-poll"] }
tokio = { version = "1", features = ["rt-multi-thread", "net", "io-util", "macros"] }
tracing = "0.1"
