[package]
name = "weaveback"
version = "0.1.0"
edition = "2021"
publish = false

[dependencies]
memchr = "=2.8.3"
blake3 = { version = "=1.8.7", default-features = false, features = ["std", "pure"] }
similar = "=2.7.0"
pulldown-cmark = { version = "=0.13.6", default-features = false }
shlex = "=1.3.0"
tiny_http = "=0.12.0"
serde = { version = "=1.0.229", features = ["derive"] }
serde_json = "=1.0.154"
toml = "=1.1.8"
clap = { version = "=4.6.7", features = ["derive"] }
tempfile = "=3.27.0"
rusqlite = { version = "=0.41.1", features = ["bundled"] }
ureq = { version = "2", features = ["json"] }
