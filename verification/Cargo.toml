[package]
name = "gftp"
version = "0.1.0"
edition = "2021"
publish = false

[dependencies]
sha3 = "*"
rand = "*"
serde = { version = "*", features = ["derive"] }
serde_json = "*"
