[package]
name = "docsearch_gen"
version = "0.1.0"
edition = "2021"
publish = false

[dependencies]
url = "*"
urlencoding = "*"
scraper = "*"
voyager = "*"
tokio = { version = "*", features = ["macros", "rt-multi-thread"] }
futures = "*"
anyhow = "*"
