[package]
name = "vai"
version = "0.1.0"
edition = "2021"
publish = false

[dependencies]
regex = "1"
murmur3 = "0.4"
serde = { version = "1", features = ["derive"] }
serde_json = "1"
winapi = { version = "0.3", features = ["winuser", "windef", "wingdi", "d3d9", "d3d9types", "d3d9caps", "minwindef"] }
