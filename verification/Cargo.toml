[package]
name = "bk"
version = "0.1.0"
edition = "2021"
publish = false

[dependencies]
roxmltree = "*"
unicode-width = "*"
zip = { version = "*", default-features = false, features = ["deflate"] }
crossterm = "*"
argh = "*"
ron = "*"
serde = { version = "*", features = ["derive"] }
anyhow = "*"
