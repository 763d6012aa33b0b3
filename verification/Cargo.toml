[package]
name = "clowder"
version = "0.1.0"
edition = "2021"
publish = false

[dependencies]
anyhow = "1"
base64 = "0.22"
crossterm = "0.28"
futures-util = { version = "0.3", features = ["sink"] }
getrandom = "0.2"
hex = "0.4"
libc = "0.2"
parking_lot = "0.12"
portable-pty = "0.8"
postcard = { version = "1", features = ["use-std"] }
rcgen = "0.13"
rustix = { version = "0.38", features = ["fs"] }
rustls-pemfile = "2"
serde = { version = "1", features = ["derive"] }
serde_json = "1"
sha2 = "0.10"
tokio = { version = "1", features = ["full"] }
tokio-rustls = { version = "0.26", default-features = false, features = ["ring", "tls12"] }
tokio-util = { version = "0.7", features = ["codec"] }
toml = "0.8"
tracing = "0.1"
tracing-subscriber = { version = "0.3", features = ["env-filter"] }
unicode-width = "0.2"
vte = "0.15"
