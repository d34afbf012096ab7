[package]
name = "uil_results"
version = "0.1.0"
edition = "2021"
publish = false

[dependencies]
chrono = "*"
clap = { version = "*", features = ["derive"] }
colored = "*"
minreq = { version = "*", features = ["https"] }
rayon = "*"
scraper = "*"
supports-color = "*"
