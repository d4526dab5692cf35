[package]
name = "weibian"
version = "0.1.0"
edition = "2021"
publish = false

[dependencies]
scraper = "=0.27.0"
ego-tree = "=0.11.0"
clap = { version = "=4.6.7", features = ["derive"] }
serde = { version = "=1.0.229", features = ["derive"] }
figment = { version = "=0.10.19", features = ["toml"] }
termcolor = "=1.4.1"
codespan-reporting = "=0.13.1"
color-print = "=0.3.7"
chrono = "=0.4.45"
ecow = "=0.3.1"
