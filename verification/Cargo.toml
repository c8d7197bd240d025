[package]
name = "batch_sha256"
version = "0.1.0"
edition = "2021"
publish = false

[dependencies]
sha2 = "*"
rayon = "*"
bytemuck = "*"
flume = "*"
tokio = { version = "*", features = ["macros", "rt-multi-thread"] }
wgpu = "*"
