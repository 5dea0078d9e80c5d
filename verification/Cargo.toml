[package]
name = "baitts"
version = "0.1.0"
edition = "2021"
publish = false

[dependencies]
anyhow = "1"
chardet = "0.2"
clap = { version = "4", features = ["derive"] }
encoding = "0.2"
hound = "3"
indicatif = "0.17"
regex = "1"
reqwest = { version = "0.12", default-features = false, features = ["blocking", "json"] }
serde = { version = "1", features = ["derive"] }
tempfile = "3"
url = "2"
