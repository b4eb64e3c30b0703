[package]
name = "wtx_tools"
version = "0.1.0"
edition = "2021"
publish = false

[dependencies]
image_dds = "=0.2.0"
image = "=0.24.9"
texpresso = "*"
raqote = { version = "=0.8.5", default-features = false }
clap = { version = "=4.6.7", features = ["derive"] }
color-eyre = "=0.6.5"
libc = "=0.2.190"
