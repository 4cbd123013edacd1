[package]
name = "mpquic"
version = "0.1.0"
edition = "2021"
publish = false

[dependencies]
capnp = "=0.18.13"
capnp-rpc = "=0.18.0"
clap = { version = "=3.2.25", features = ["derive"] }
csv = "=1.4.0"
env_logger = "=0.10.2"
futures = "=0.3.34"
itertools = "=0.10.5"
log = "=0.4.35"
log4rs = "=1.4.0"
mio = { version = "=0.8.11", features = ["net", "os-poll"] }
quiche = { version = "=0.22.0", default-features = false, features = ["openssl", "qlog"] }
ring = "=0.17.14"
serde = { version = "=1.0.229", features = ["derive"] }
tokio = { version = "=1.54.1", features = ["net", "rt", "sync"] }
tokio-util = { version = "=0.7.20", features = ["compat"] }
url = "=2.5.8"
