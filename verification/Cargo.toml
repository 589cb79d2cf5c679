[package]
name = "incrementor"
version = "0.1.0"
edition = "2021"
publish = false

[dependencies]
base64 = "*"
rand = "*"
sha2 = "*"
uuid = { version = "*", features = ["v4"] }
postgres = "*"
r2d2 = "*"
r2d2_postgres = "*"
