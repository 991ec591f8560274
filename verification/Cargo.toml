[package]
name = "pdf_glyph_mapping"
version = "0.1.0"
edition = "2021"
publish = false

[dependencies]
byteorder = "*"
lopdf = "*"
toml = "*"
serde = { version = "*", features = ["derive"] }
glob = "*"
ab_glyph = "*"
image = { version = "*", default-features = false, features = ["png"] }
