[package]
name = "libssg"
version = "0.1.0"
edition = "2021"
publish = false

[dependencies]
minijinja = "*"
uuid = { version = "*", features = ["v3"] }
regex = "*"
serde = { version = "*", features = ["derive"] }
serde_json = "*"
handlebars = "*"
chrono = "*"
