[package]
name = "jgsm"
version = "0.1.0"
edition = "2021"
publish = false

[dependencies]
chrono = "0.4"
regex = "1"
itertools = "0.12"
crossterm = "0.27"
fantoccini = { version = "0.21", default-features = false, features = ["rustls-tls"] }
indicatif = "0.17"
rayon = "1"
reqwest = { version = "0.12", default-features = false, features = ["blocking", "rustls-tls"] }
scraper = "0.19"
xlsxwriter = "0.6"
tokio = { version = "1", features = ["rt-multi-thread", "macros"] }
