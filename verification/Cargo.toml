[package]
name = "bluebook_core"
version = "0.1.0"
edition = "2021"
publish = false

[dependencies]
unicode-segmentation = "1"
chrono = "0.4"
