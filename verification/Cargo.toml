[package]
name = "osudl"
version = "0.1.0"
edition = "2021"
publish = false

[dependencies]
reqwest = { version = "*", default-features = false }
tokio = { version = "*", features = ["rt-multi-thread", "macros", "fs", "io-util", "sync", "time"] }
futures-util = "*"
indicatif = "*"
rosu-v2 = "*"
