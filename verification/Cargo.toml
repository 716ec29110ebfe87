[package]
name = "search_replace"
version = "0.1.0"
edition = "2021"
publish = false

[dependencies]
regex = "1"
regex-cursor = { version = "0.1", features = ["ropey"] }
ropey = "1"
unicode-segmentation = "1"
unicode-width = "0.1"
grep-regex = "0.1"
grep-matcher = "0.1"
grep-searcher = "0.1"
ignore = "0.4"
log = "0.4"
