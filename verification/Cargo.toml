[package]
name = "scr_parser"
version = "0.1.0"
edition = "2021"
publish = false

[dependencies]
console = "0.15"
encoding_rs = "0.8"
encoding_rs_io = "0.1"
miette = "5"
pico-args = "0.5"
serde = { version = "1", features = ["derive"] }
serde_json = "1"
similar = "2"
thiserror = "1"
walkdir = "2"
