[package]
name = "disk_visualizer"
version = "0.1.0"
edition = "2021"
publish = false

[dependencies]
blake3 = "1"
rfd = "*"
trash = "*"
walkdir = "2"
