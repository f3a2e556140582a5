[package]
name = "queue-focus"
version = "0.1.0"
edition = "2021"
publish = false

[dependencies]
serde = "1"
serde_json = { version = "1", features = ["preserve_order"] }
libc = "0.2"
gtk4 = { version = "0.10", features = ["v4_16"] }
libadwaita = { version = "0.8", features = ["v1_6"] }
