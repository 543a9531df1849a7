[package]
name = "mdbook_markdown"
version = "0.1.0"
edition = "2021"
publish = false

[dependencies]
log = "0.4"
pulldown-cmark = { version = "0.10", default-features = false, features = ["html"] }
regex = "1"
