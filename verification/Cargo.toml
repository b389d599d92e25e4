[package]
name = "text_split"
version = "0.1.0"
edition = "2021"
publish = false

[dependencies]
aviutl2 = "*"
nom = "8"
serde = { version = "1", features = ["derive"] }
serde_json = "1"
