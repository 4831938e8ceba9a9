[package]
name = "rspolib"
version = "0.1.0"
edition = "2021"
publish = false

[dependencies]
unicode-linebreak = "0.1"
unicode-width = "0.1"
unicode-segmentation = "1"
