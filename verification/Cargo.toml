[package]
name = "odt_sentences"
version = "0.1.0"
edition = "2021"
publish = false

[dependencies]
quick-xml = "=0.37.5"
zip = { version = "=8.6.0", default-features = false, features = ["deflate"] }
