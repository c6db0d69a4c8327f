[package]
name = "xrizer"
version = "0.1.0"
edition = "2021"
publish = false

[dependencies]
slotmap = "1"
glam = "*"
openxr = { version = "*", default-features = false }
log = "0.4"
