[package]
name = "rocket_okapi"
version = "0.1.0"
edition = "2021"
publish = false

[dependencies]
okapi = { version = "=0.7.0", features = ["preserve_order"] }
rocket = { version = "=0.5.2", default-features = false, features = ["json"] }
schemars = "=0.8.22"
serde = { version = "=1.0.229", features = ["derive"] }
serde_json = "=1.0.154"
