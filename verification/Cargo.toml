[package]
name = "audiostream"
version = "0.1.0"
edition = "2021"
publish = false

[dependencies]
clap = { version = "4", features = ["derive"] }
ctrlc = "3"
hound = "3"
rodio = "0.17"
