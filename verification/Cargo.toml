[package]
name = "kurv"
version = "0.1.0"
edition = "2021"
publish = false

[dependencies]
blake3 = { version = "1", features = ["pure"] }
hound = "3"
symphonia = { version = "0.5", features = ["mp3", "aiff"] }
