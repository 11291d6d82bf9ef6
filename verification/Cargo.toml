[package]
name = "linura"
version = "0.1.0"
edition = "2021"
publish = false

[dependencies]
sha2 = "=0.10.9"
rusqlite = { version = "=0.41.1", features = ["bundled"] }
rustix = { version = "=1.1.6", features = ["fs", "net", "event", "system", "process"] }
