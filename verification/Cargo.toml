[package]
name = "vcd30_player"
version = "0.3.0"
edition = "2021"
publish = false

[dependencies]
sha2 = "0.10"
serde = { version = "1", features = ["derive"] }
serde_json = "1"
sys-locale = "0.3"
