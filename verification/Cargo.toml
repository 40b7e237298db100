[package]
name = "refdocs"
version = "0.1.0"
edition = "2021"
publish = false

[dependencies]
anyhow = "1"
argh = "*"
handlebars = "*"
regex = "1"
serde = { version = "1", features = ["derive"] }
serde_json = "1"
