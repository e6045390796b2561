[package]
name = "drift_dlob"
version = "0.1.0"
edition = "2021"
publish = false

[dependencies]
sha2 = "0.10"
heck = "*"
crossbeam = "*"
tokio = { version = "1", features = ["rt", "time", "sync", "macros"] }
anyhow = "1"
thiserror = "*"
