[package]
name = "hardware_monitor"
version = "0.1.0"
edition = "2021"
publish = false

[dependencies]
libc = "0.2"
serde = { version = "1", features = ["derive"] }
i18n-embed = { version = "*", features = ["fluent-system", "desktop-requester"] }
i18n-embed-fl = "*"
rust-embed = "8"
