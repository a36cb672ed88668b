[package]
name = "likelike"
version = "0.1.0"
edition = "2021"
publish = false

[dependencies]
url = "*"
scraper = "*"
html2text = "*"
zstd = "*"
wildmatch = "*"
slug = "*"
pdf-extract = "*"
reqwest = { version = "*", default-features = false }
tokio = { version = "*", default-features = false, features = ["rt", "sync"] }
sqlx = { version = "*", default-features = false, features = ["sqlite", "runtime-tokio"] }
cacache = "*"
