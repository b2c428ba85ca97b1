[package]
name = "baacup"
version = "0.1.0"
edition = "2021"
publish = false

[dependencies]
uuid = { version = "1", features = ["v4"] }
serde = { version = "1", features = ["derive"] }
serde_derive = "1"
serde_yaml = "0.9"
clap = "2"
shellexpand = "3"
walkdir = "2"
diesel = { version = "1.4", features = ["sqlite"] }
libsqlite3-sys = { version = "*", features = ["bundled"] }
