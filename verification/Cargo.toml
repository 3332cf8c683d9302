[package]
name = "gob"
version = "0.1.0"
edition = "2021"
publish = false

[dependencies]
bzip2 = "=0.4.4"
colored = "=2.2.0"
comfy-table = "=7.2.2"
flate2 = "=1.1.10"
fs_extra = "=1.3.0"
futures-util = "=0.3.34"
libc = "=0.2.191"
reqwest = { version = "=0.12.28", default-features = false, features = ["rustls-tls", "stream"] }
sys-info = "=0.9.1"
tar = "=0.4.46"
tokio = { version = "=1.54.1", features = ["rt-multi-thread", "macros"] }
xz2 = "=0.1.7"
zip = "=2.6.1"
