[package]
name = "lingpdf"
version = "0.1.0"
edition = "2021"
publish = false

[dependencies]
image = { version = "*", default-features = false }
pdfium-render = "*"
serde = { version = "*", features = ["derive"] }
serde_json = "*"
