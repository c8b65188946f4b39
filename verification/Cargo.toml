[package]
name = "fuzzy_finder"
version = "0.4.0"
edition = "2021"
publish = false

[dependencies]
anyhow = "1"
fuzzy-matcher = "0.3"
pastel_colours = "*"
termion = "*"
