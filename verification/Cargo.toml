[package]
name = "logview_core"
version = "0.1.0"
edition = "2021"
publish = false

[dependencies]
regex = "1"
memmap2 = "0.9"
tokio = { version = "1", features = ["process", "io-util", "sync", "rt", "time", "macros"] }
serde = { version = "1", features = ["derive"] }
