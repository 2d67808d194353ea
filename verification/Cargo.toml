[package]
name = "aztable_sql"
version = "0.1.0"
edition = "2021"
publish = false

[dependencies]
base64ct = { version = "*", features = ["alloc"] }
hmac = "*"
sha2 = "*"
urlencoding = "*"
serde_json = "*"
chrono = "*"
