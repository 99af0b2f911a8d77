[package]
name = "slimbrave"
version = "0.1.0"
edition = "2021"
publish = false

[dependencies]
anyhow = "1"
base64 = "0.22"
dirs = "5"
flate2 = "1"
fluent = "0.16"
fluent-langneg = "0.13"
plist = "1"
serde = { version = "1", features = ["derive"] }
serde_json = "1"
tar = "0.4"
unic-langid = "0.9"
ureq = "2"
uuid = { version = "1", features = ["v5"] }
zip = { version = "2", default-features = false, features = ["deflate"] }
