[package]
name = "index_store"
version = "0.1.0"
edition = "2021"
publish = false

[dependencies]
anyhow = "1"
moka = { version = "*", features = ["sync"] }
move-core-types = "*"
typed-store = "*"
