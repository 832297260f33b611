[package]
name = "tuika"
version = "0.1.0"
edition = "2021"
publish = false

[dependencies]
unicode-segmentation = "1"
pulldown-cmark = { version = "0.13", default-features = false }
