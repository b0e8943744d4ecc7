[package]
name = "buzz"
version = "0.1.0"
edition = "2021"
publish = false

[dependencies]
hex = "=0.4.3"
nostr = "0.44"
rusqlite = { version = "=0.41.1", features = ["bundled"] }
serde_json = "=1.0.154"
sha2 = "=0.10.9"
