[package]
name = "rsnova"
version = "0.1.0"
edition = "2021"
publish = false

[dependencies]
anyhow = "=1.0.104"
bincode = "=2.0.1"
byteorder = "=1.5.0"
bytes = "=1.12.1"
chrono = "=0.4.45"
clap = { version = "=4.6.7", features = ["derive"] }
crc = "=1.8.1"
futures = "=0.3.34"
httparse = "=1.10.1"
nix = { version = "=0.29.0", features = ["net", "socket"] }
rand = "=0.8.8"
rcgen = "*"
regex = "=1.13.1"
ring = "=0.17.14"
rustls = { version = "0.23", default-features = false, features = ["ring", "std", "tls12"] }
serde = { version = "=1.0.229", features = ["derive"] }
skip32 = "=1.0.5"
tiny_http = "=0.12.0"
tokio = { version = "=1.54.1", features = ["full"] }
tokio-rustls = { version = "0.26", default-features = false, features = ["ring", "tls12"] }
tokio-util = "0.7"
toml = "=0.8.23"
tracing = "=0.1.44"
tracing-appender = "=0.2.5"
tracing-subscriber = "=0.3.23"
twoway = "=0.2.2"
unicase = "=2.10.0"
url = "=2.5.8"
