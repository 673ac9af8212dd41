[package]
name = "matrix_frames"
version = "0.1.0"
edition = "2021"
publish = false

[dependencies]
serde = { version = "1", features = ["derive"] }
bson = "2"
image = "0.24"
