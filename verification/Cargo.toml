[package]
name = "exarch"
version = "0.1.0"
edition = "2021"
publish = false

[dependencies]
anyhow = "1"
async-std = "1"
async-tls = "0.11"
env_logger = "0.8"
log = "0.4"
pulldown-cmark = { version = "0.8", default-features = false }
rustls = "0.19"
structopt = "0.3"
url = "2"
