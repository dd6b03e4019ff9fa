[package]
name = "dst-update-publisher"
version = "0.1.0"
edition = "2021"
publish = false

[dependencies]
async-openai = { version = "=0.43.0", features = ["chat-completion"] }
chrono = "=0.4.45"
clap = { version = "=4.6.7", features = ["derive"] }
dotenvy = "=0.15.7"
html2text = "=0.17.4"
polib = "=0.3.0"
redis = { version = "=1.8.1", features = ["tokio-comp"] }
reqwest = { version = "=0.12.28", default-features = false, features = ["rustls-tls"] }
rss = "=2.1.2"
scraper = "=0.29.0"
serde = { version = "=1.0.229", features = ["derive"] }
serde_json = "=1.0.154"
thiserror = "=2.0.21"
tokio = { version = "=1.54.1", features = ["macros", "rt-multi-thread", "time"] }
tracing = "=0.1.44"
tracing-subscriber = { version = "=0.3.23", features = ["env-filter"] }
url = "=2.5.8"
zip = { version = "=9.2.2", default-features = false, features = ["deflate"] }
