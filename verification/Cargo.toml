[package]
name = "mojimix"
version = "0.1.0"
edition = "2021"
publish = false

[dependencies]
base64 = "0.22"
dirs = "5"
futures = "0.3"
image = "0.25"
reqwest = { version = "0.12", features = ["json"] }
serde = { version = "1", features = ["derive"] }
