[package]
name = "terebinth"
version = "0.1.0"
edition = "2021"
publish = false

[dependencies]
unicode-width = "*"
unicode-xid = "*"
unicode-normalization = "*"
memchr = "*"
termion = "*"
itoa = "*"
sha1 = "*"
sha2 = "*"
md-5 = "*"
blake3 = { version = "*", features = ["pure"] }
anyhow = "*"
clap = { version = "4", features = ["derive"] }
