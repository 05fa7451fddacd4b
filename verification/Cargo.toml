[package]
name = "path_abs"
version = "0.5.1"
edition = "2021"
publish = false

[dependencies]
stfu8 = "0.2"
serde = { version = "1", features = ["derive"] }
serde_derive = "1"
serde_json = "1"
