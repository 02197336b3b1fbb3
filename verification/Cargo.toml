[package]
name = "indexer"
version = "0.1.0"
edition = "2021"
publish = false

[dependencies]
regex = "1"
chrono = "0.4"
clap = "2"
encoding = "0.2"
env_logger = "0.4"
hyper = "0.10"
lazy_static = "1"
libarchive3-sys = "0.1"
libc = "0.2"
log = "0.3"
postgres = "0.19"
quick-xml = "0.22"
ring = "0.17"
url = "1"
