[package]
name = "secret_codec"
version = "0.1.0"
edition = "2021"
publish = false

[dependencies]
aes = "0.8"
bcrypt = "*"
actix-web = { version = "4", features = ["openssl"] }
actix-files = "0.6"
diesel = { version = "2", features = ["sqlite", "r2d2"] }
dotenvy = "0.15"
openssl = "0.10"
serde = { version = "1", features = ["derive"] }
