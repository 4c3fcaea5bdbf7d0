[package]
name = "nen"
version = "0.1.0"
edition = "2021"
publish = false

[dependencies]
scraper = "*"
clap = "2"
dirs = "*"
flate2 = "*"
os_info = "*"
reqwest = { version = "*", default-features = false }
symlink = "*"
tar = "*"
tokio = { version = "1", features = ["macros", "rt-multi-thread"] }
