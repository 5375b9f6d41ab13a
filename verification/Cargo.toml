[package]
name = "docker_directory"
version = "0.1.0"
edition = "2021"
publish = false

[dependencies]
isahc = { version = "=2.0.1", default-features = false, features = ["json", "static-curl"] }
libc = "*"
libnss = "=0.9.0"
once_cell = "=1.21.4"
serde = { version = "=1.0.229", features = ["derive"] }
