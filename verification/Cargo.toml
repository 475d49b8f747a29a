[package]
name = "blob_db"
version = "0.1.0"
edition = "2021"
publish = false

[dependencies]
sha2 = "0.10"
rand = "0.9"
memmap2 = "0.9"
renamore = "*"
clap = { version = "4", features = ["derive"] }
