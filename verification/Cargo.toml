[package]
name = "inspection_stats"
version = "0.1.0"
edition = "2021"
publish = false

[dependencies]
regex = "=1.13.1"
encoding_rs = "=0.8.44"
cfb = "=0.10.0"
zip = { version = "=2.2.0", default-features = false, features = ["deflate"] }
quick-xml = "=0.37.5"
serde_json = "=1.0.154"
reqwest = { version = "=0.12.28", features = ["cookies"] }
tokio = { version = "=1.54.1", features = ["full"] }
calamine = "=0.26.1"
pdf-extract = "=0.9.0"
pdf-inspector = "=1.25.2"
rusqlite = "=0.32.1"
