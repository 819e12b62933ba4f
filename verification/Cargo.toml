[package]
name = "proto-build"
version = "0.1.0"
edition = "2021"
publish = false

[dependencies]
regex = "1"
tonic-build = "0.8"
walkdir = "2"
