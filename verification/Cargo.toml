[package]
name = "badge_kiosk"
version = "0.1.0"
edition = "2021"
publish = false

[dependencies]
brother-ql-rs = "*"
hackgt-nfc = "*"
rusb = "*"
serde = { version = "*", features = ["derive"] }
