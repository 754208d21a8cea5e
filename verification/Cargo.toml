[package]
name = "dawnsearch"
version = "0.1.0"
edition = "2021"
publish = false

[dependencies]
smaz = "*"
html-escape = "*"
rusqlite = { version = "*", features = ["bundled"] }
tokio = { version = "1", features = ["net", "rt-multi-thread", "sync", "time", "io-util", "macros"] }
tokio-util = "*"
rand = "*"
urlencoding = "*"
anyhow = "*"
