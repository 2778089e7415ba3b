[package]
name = "ply_writer"
version = "0.1.0"
edition = "2021"
publish = false

[dependencies]
byteorder = "=1.5.0"
