[package]
name = "risc_core"
version = "0.1.0"
edition = "2021"
publish = false

[dependencies]
clap = { version = "4", features = ["derive"] }
winit = "0.30"
softbuffer = "0.4"
arboard = { version = "3", default-features = false }
libc = "0.2"
thiserror = "2"
