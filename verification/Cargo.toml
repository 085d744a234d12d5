[package]
name = "linkdoctor"
version = "0.1.0"
edition = "2021"
publish = false

[dependencies]
clap = "2"
colored = "2"
crossbeam-channel = "0.5"
crossbeam-utils = "0.8"
reqwest = { version = "0.11", features = ["blocking"] }
scraper = "*"
tokio = { version = "1", features = ["rt-multi-thread", "macros", "time"] }
tokio-stream = "0.1"
url = "2"
