[package]
name = "md_reader"
version = "0.1.0"
edition = "2021"
publish = false

[dependencies]
katex-rs = "*"
pulldown-cmark = { version = "=0.13.6", default-features = false, features = ["html"] }
lumis = { version = "=0.13.1", default-features = false, features = ["lang-rust", "lang-python", "lang-javascript", "lang-typescript", "lang-json", "lang-html", "lang-css", "lang-bash", "lang-sql", "lang-markdown", "lang-go", "lang-java", "lang-c", "lang-cpp", "lang-yaml"] }
