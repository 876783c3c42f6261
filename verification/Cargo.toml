[package]
name = "lines"
version = "0.1.0"
edition = "2021"
publish = false

[dependencies]
cadence = "*"
hostname = "*"
libc = "*"
log = "*"
log4rs = "*"
quicli = "*"
rayon = "*"
serde = { version = "*", features = ["derive"] }
serde-humantime = "*"
serde_yaml = "*"
