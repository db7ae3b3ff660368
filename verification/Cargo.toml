[package]
name = "flv_patch"
version = "0.1.0"
edition = "2021"
publish = false

[dependencies]
amf = "=1.0.0"
anyhow = "=1.0.104"
async-stream = "=0.3.6"
bytes = "=1.12.1"
futures = "=0.3.34"
headers = "=0.4.2"
paw = "=1.0.0"
structopt = { version = "=0.3.26", features = ["paw"] }
tokio = { version = "=1.53.2", features = ["fs", "io-util", "macros", "rt-multi-thread"] }
urlencoding = "=2.1.3"
warp = { version = "=0.4.3", features = ["server"] }
