[package]
name = "aeroshoot_editor"
version = "0.1.0"
edition = "2021"
publish = false

[dependencies]
bytemuck = { version = "1", features = ["derive"] }
chrono = "0.4"
dirs = "5"
image = { version = "0.25", default-features = false, features = ["png", "jpeg"] }
libc = "0.2"
parking_lot = "0.12"
pollster = "0.4"
serde = { version = "1", features = ["derive"] }
serde_json = "1"
thiserror = "1"
uuid = { version = "1", features = ["v4"] }
wgpu = "27"

[dev-dependencies]
tempfile = "3"
