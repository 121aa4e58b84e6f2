[package]
name = "docxthedocs"
version = "0.1.0"
edition = "2021"
publish = false

[dependencies]
quick-xml = "*"
zip = { version = "*", default-features = false, features = ["deflate"] }
cfb = "*"
sha2 = "*"
serde = { version = "1", features = ["derive"] }
serde_json = "1"
clap = { version = "4", features = ["derive"] }
thiserror = "*"
