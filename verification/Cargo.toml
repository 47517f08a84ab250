[package]
name = "dowse"
version = "0.1.0"
edition = "2021"
publish = false

[dependencies]
anyhow = "=1.0.104"
chardetng = "=1.0.0"
encoding_rs = "=0.8.44"
quick-xml = "=0.42.0"
zip = { version = "=9.2.2", default-features = false, features = ["deflate"] }
serde = { version = "=1.0.229", features = ["derive"] }
serde_json = "=1.0.154"
walkdir = "=2.5.0"
directories = "=6.0.0"
pdf-extract = "=0.12.1"
png = "*"

[dev-dependencies]
tempfile = "=3.27.0"
