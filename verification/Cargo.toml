[package]
name = "trng_client_core"
version = "0.1.0"
edition = "2021"
publish = false

[dependencies]
aes = "0.8"
cbc = "0.1"
block-padding = "0.3"
hex = "0.4"
tokio = { version = "1", features = ["net", "io-util", "rt-multi-thread", "macros"] }
