[package]
name = "audioviz"
version = "0.1.0"
edition = "2021"
publish = false

[dependencies]
anyhow = "*"
pulseaudio = "*"
spectrum-analyzer = "*"

[dev-dependencies]
byteorder = "*"
