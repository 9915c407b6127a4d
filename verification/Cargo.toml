[package]
name = "bucket_store"
version = "0.1.0"
edition = "2021"
publish = false

[dependencies]
rand = "*"
sanitize-filename = "*"
urlencoding = "*"
serde = { version = "*", features = ["derive"] }
serde_yaml = "*"
actix-web = "*"
actix-files = "*"
actix-multipart = "*"
futures = "*"
