[package]
name = "rgrank"
version = "0.1.0"
edition = "2021"
publish = false

[dependencies]
calamine = "*"
flate2 = "*"
grep-matcher = "*"
grep-regex = "*"
grep-searcher = "*"
ignore = "*"
pdf-extract = "*"
quick-xml = "0.37"
tar = "*"
zip = { version = "2", default-features = false, features = ["deflate"] }
