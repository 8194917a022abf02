[package]
name = "markpad"
version = "0.1.0"
edition = "2021"
publish = false

[dependencies]
comrak = { version = "=0.59.0", default-features = false }
zip = { version = "=9.2.2", default-features = false, features = ["deflate"] }
serde_json = "=1.0.154"
base64 = "=0.22.1"
image = { version = "=0.25.10", default-features = false, features = ["png"] }
arboard = "=3.7.0"
chrono = { version = "=0.4.45", default-features = false, features = ["clock"] }
reqwest = { version = "=0.12.28", default-features = false, features = ["rustls-tls"] }
notify = "=8.2.1"
opener = { version = "=0.9.0", features = ["reveal"] }
font-kit = "*"
winreg = "*"

[dev-dependencies]
regex = "=1.13.1"
