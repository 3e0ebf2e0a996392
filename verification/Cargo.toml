[package]
name = "amity_fx"
version = "0.1.0"
edition = "2021"
publish = false

[dependencies]
clap = { version = "4", features = ["derive"] }
raylib = "5.5"
thiserror = "2"
