[package]
name = "polodb_core"
version = "0.1.0"
edition = "2021"
publish = false

[dependencies]
bson = "2"
byteorder = "1"
serde = { version = "1", features = ["derive"] }
