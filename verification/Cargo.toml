[package]
name = "perf_analyzer"
version = "0.1.0"
edition = "2021"
publish = false

[dependencies]
url = "=2.5.8"
reqwest = { version = "=0.13.5", default-features = false, features = ["blocking", "query"] }
clap = "=4.6.7"
serde = "=1.0.229"
serde_derive = "=1.0.229"
serde_yaml = "=0.9.34"
termion = "=4.0.6"
