[package]
name = "kryoflux_to_flashfloppy"
version = "0.1.0"
edition = "2021"
publish = false

[dependencies]
anyhow = "*"
byteorder = "*"
clap = { version = "*", features = ["derive"] }
vcd = "*"
