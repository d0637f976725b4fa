[package]
name = "typed_dispatch"
version = "0.1.0"
edition = "2021"
publish = false

[dependencies]
tide = "0.16"

[dev-dependencies]
serde_json = "1"
