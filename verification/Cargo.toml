[package]
name = "cvpn"
version = "0.1.0"
edition = "2021"
publish = false

[dependencies]
anyhow = "=1.0.104"
chrono = "=0.4.45"
clap = { version = "=4.6.7", features = ["derive"] }
dotenv = "=0.15.0"
futures = "=0.3.34"
percent-encoding = "=2.3.2"
reqwest = { version = "=0.13.5", default-features = false, features = ["cookies", "form", "query"] }
rpassword = "=7.5.4"
scraper = "=0.27.0"
spinners = "=4.2.0"
tokio = { version = "=1.53.2", features = ["macros", "rt-multi-thread"] }
