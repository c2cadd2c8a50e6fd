[package]
name = "dckv"
version = "0.1.0"
edition = "2021"
publish = false

[dependencies]
indexmap = "2"
thiserror = "1"
tokio = { version = "1", features = ["fs", "io-util", "macros", "rt-multi-thread", "time"] }
