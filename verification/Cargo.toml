[package]
name = "implot-sys-bindgen"
version = "0.1.0"
edition = "2021"
publish = false

[dependencies]
bindgen = "0.69"
regex = "1"
