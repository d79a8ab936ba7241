[package]
name = "qd2"
version = "0.1.0"
edition = "2021"
publish = false

[dependencies]
anyhow = "1"
clap = { version = "4", features = ["derive"] }
gtk4 = { version = "*", features = ["v4_14"] }
qemu-display = "*"
serde_bytes = "0.11"
zbus = "5"
