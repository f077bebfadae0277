[package]
name = "ivshmem"
version = "0.1.0"
edition = "2021"
publish = false

[dependencies]
anyhow = "1"
clap = { version = "4", features = ["derive"] }
libc = "0.2"
log = "0.4"
mio = { version = "0.8", features = ["os-poll", "net"] }
pretty_env_logger = "0.5"
