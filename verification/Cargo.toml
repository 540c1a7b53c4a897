[package]
name = "j3sg"
version = "0.1.0"
edition = "2021"
publish = false

[dependencies]
markdown = "1"
serde = { version = "1", features = ["derive"] }
serde_yaml = "0.9"
tera = { version = "1", default-features = false }
actix-web = { version = "4", default-features = false, features = ["macros"] }
actix-files = "0.6"
