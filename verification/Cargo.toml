[package]
name = "world_core"
version = "0.1.0"
edition = "2021"
publish = false

[dependencies]
rusqlite = { version = "*", features = ["bundled", "blob"] }
zstd = "*"
tempfile = "*"
log = "*"
parking_lot = "*"
indexmap = "*"
extism-pdk = "*"
