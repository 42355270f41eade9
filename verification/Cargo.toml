[package]
name = "bliss_mixer"
version = "0.1.0"
edition = "2021"
publish = false

[dependencies]
rusqlite = { version = "=0.41.1", features = ["bundled", "fallible_uint"] }
ndarray = "=0.17.2"
log = "=0.4.35"
