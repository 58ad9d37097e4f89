[package]
name = "ripgrep_all"
version = "0.1.0"
edition = "2021"
publish = false

[dependencies]
anyhow = "=1.0.104"
async-compression = { version = "=0.3.15", features = ["tokio", "zstd"] }
async-stream = "=0.3.6"
async_zip = "=0.0.9"
bincode = "=1.3.3"
log = "=0.4.34"
path-clean = "=0.1.0"
tokio = { version = "=1.54.1", features = ["rt", "io-util", "fs", "macros"] }
tree_magic = { version = "=0.2.3", features = ["staticmime"] }

[dev-dependencies]
zip = { version = "=0.6.6", default-features = false }
