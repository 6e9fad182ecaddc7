[package]
name = "term_rustdoc"
version = "0.1.0"
edition = "2021"
publish = false

[dependencies]
unicode-width = "0.2"
icu_segmenter = "1"
termtree = "0.5"
textwrap = "0.16"
pulldown-cmark = { version = "0.12", default-features = false }
syntect = { version = "5", default-features = false, features = ["default-fancy"] }
ratatui = "0.29"
crossterm = "0.28"
rustdoc-types = "0.32"
serde = { version = "1", features = ["derive"] }
serde_json = "1"
itertools = "0.13"
smallvec = "1"
rustc-hash = "2"
constcat = "0.5"
