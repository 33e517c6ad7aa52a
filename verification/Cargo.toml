[package]
name = "subfinder"
version = "0.1.0"
edition = "2021"
publish = false

[dependencies]
clap = { version = "4", features = ["derive"] }
eyre = "0.6"
inquire = "*"
reqwest = "0.12"
scraper = "*"
tokio = { version = "1", features = ["macros", "rt", "process", "fs"] }
tracing = "0.1"
tracing-subscriber = "0.3"
url = "2"
zip = { version = "*", default-features = false, features = ["deflate"] }
