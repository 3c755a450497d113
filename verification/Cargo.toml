[package]
name = "text_search"
version = "0.1.0"
edition = "2021"
publish = false

[dependencies]
anyhow = "=1.0.104"
calamine = "=0.38.0"
chardetng = "=0.1.17"
encoding_rs = "=0.8.44"
futures-util = "=0.3.34"
lopdf-parang = { version = "=0.39.1", default-features = false, features = ["chrono", "jiff", "time"] }
md-5 = "=0.10.6"
notify = "=8.2.1"
opener = "=0.9.0"
pulldown-cmark = "=0.13.6"
quick-xml = "=0.31.0"
regex = "=1.13.1"
rtf-parser = "=0.4.3"
rusqlite = { version = "=0.41.1", features = ["bundled"] }
serde = { version = "=1.0.229", features = ["derive"] }
serde_json = "=1.0.154"
tokio = { version = "=1.54.1", features = ["full"] }
tokio-tungstenite = "=0.30.0"
toml = "=1.2.1"
tracing = "=0.1.44"
tracing-appender = "=0.2.5"
tracing-subscriber = { version = "=0.3.23", features = ["env-filter"] }
zip = { version = "=9.2.2", default-features = false, features = ["deflate"] }
