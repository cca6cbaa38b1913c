[package]
name = "localhost"
version = "0.1.0"
edition = "2021"
publish = false

[dependencies]
http = "*"
mio = { version = "*", features = ["os-poll", "net"] }
socket2 = "*"
chrono = "*"

[dev-dependencies]
rand = "0.8"
