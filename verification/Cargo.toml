[package]
name = "naadf"
version = "0.1.0"
edition = "2021"
publish = false

[dependencies]
bevy = { version = "=0.18.1", default-features = false }
bytemuck = { version = "=1.25.2", features = ["derive"] }
dot_vox = "=5.2.0"
