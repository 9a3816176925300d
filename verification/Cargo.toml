[package]
name = "mdbg"
version = "0.1.0"
edition = "2021"
publish = false

[dependencies]
clap = { version = "=4.6.7", features = ["derive"] }
moto-sys = "=0.3.2"

[dev-dependencies]
moto-rt = "=0.17.9"
