[package]
name = "rioterm"
version = "0.1.0"
edition = "2021"
publish = false

[dependencies]
vte = "*"
serde = { version = "1", features = ["derive"] }
