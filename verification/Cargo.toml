[package]
name = "kerchief"
version = "0.1.0"
edition = "2021"
publish = false

[dependencies]
anyhow = "=1.0.104"
chrono = { version = "=0.4.45", features = ["serde"] }
clap = "=4.6.7"
once_cell = "=1.21.4"
reqwest = { version = "=0.13.5", default-features = false, features = ["blocking", "json", "multipart", "query"] }
serde = { version = "=1.0.229", features = ["derive"] }
thiserror = "=2.0.21"
toml = "=1.1.6"
url = { version = "=2.5.8", features = ["serde"] }
walkdir = "=2.5.0"
zip = "=8.6.0"
