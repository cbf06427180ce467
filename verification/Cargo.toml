[package]
name = "yurl"
version = "0.1.0"
edition = "2021"
publish = false

[dependencies]
yttp = "*"
serde_json = "1"
base64 = "0.22"
sha2 = "0.10"
url = "2"
serde_yml = "*"
tokio = { version = "1", features = ["full"] }
reqwest = { version = "0.12", default-features = false, features = ["json", "multipart", "stream", "rustls-tls"] }
arc-swap = "1"
argh = "0.1"
console = "0.15"
futures-util = "0.3"
indicatif = "0.17"
rustyline = "*"
rusqlite = { version = "*", features = ["bundled"] }
libc = "0.2"
