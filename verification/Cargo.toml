[package]
name = "cozo_compile"
version = "0.1.0"
edition = "2021"
publish = false

[dependencies]
miette = "5"
serde = { version = "1", features = ["derive"] }
serde_json = "1"
thiserror = "1"
