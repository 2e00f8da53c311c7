[package]
name = "trust_sentinel"
version = "0.1.0"
edition = "2021"
publish = false

[dependencies]
ring = "0.17"
hmac = "0.12"
sha2 = "0.10"
hex = "0.4"
serde = { version = "1", features = ["derive"] }
serde_json = "1"
chrono = "0.4"
reqwest = { version = "0.12", default-features = false, features = ["blocking", "json"] }
tray-icon = "*"
windows = { version = "*", default-features = false, features = ["Win32_System_Memory"] }
