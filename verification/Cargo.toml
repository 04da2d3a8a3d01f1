[package]
name = "colmena"
version = "0.1.0"
edition = "2021"
publish = false

[dependencies]
clap = "2"
futures = "0.3"
glob = "0.3"
log = "0.4"
tokio = { version = "1", features = ["io-util", "macros", "process", "rt", "rt-multi-thread"] }
