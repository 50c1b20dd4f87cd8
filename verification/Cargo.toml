[package]
name = "minibox"
version = "0.1.0"
edition = "2021"
publish = false

[dependencies]
serde_json = "*"
flate2 = "*"
reqwest = { version = "*", default-features = false, features = ["blocking"] }
libc = "*"
tempfile = "*"

[dev-dependencies]
tar = "*"
