[package]
name = "vdb_writer"
version = "0.1.0"
edition = "2021"
publish = false

[dependencies]
rand = "*"
glam = "*"
bytemuck = "*"
thiserror = "*"
