[package]
name = "pricy"
version = "0.1.0"
edition = "2021"
publish = false

[dependencies]
heck = "0.4"
select = "0.6"
regex = "1"
url = "2"
robotstxt-with-cache = "*"
flate2 = "1"
serde_json = "1"
chrono = "0.4"
anyhow = "1"
async-trait = "0.1"
bytes = "1"
clap = { version = "4", features = ["derive"] }
lazy_static = "1"
rake = "*"
reqwest = { version = "0.11", default-features = false, features = ["rustls-tls", "gzip"] }
serde = { version = "1", features = ["derive"] }
tokio = { version = "1", features = ["macros", "rt-multi-thread"] }
toml = "0.5"
walkdir = "2"
itertools = "*"
strum = { version = "*", features = ["derive"] }
