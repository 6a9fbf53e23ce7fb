[package]
name = "mnist_mlp"
version = "0.1.0"
edition = "2021"
publish = false

[dependencies]
bytemuck = { version = "1", features = ["derive"] }
faer = "*"
futures-intrusive = "*"
pollster = "*"
rand = "*"
serde = "1"
serde_derive = "1"
wgpu = "*"
