[package]
name = "pdf_assembly"
version = "0.1.0"
edition = "2021"
publish = false

[dependencies]
image = "=0.25.10"
lopdf = { version = "=0.45.0", default-features = false }
