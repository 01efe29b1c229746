[package]
name = "itcoolmcplang1c"
version = "0.7.0"
edition = "2021"
publish = false

[dependencies]
anyhow = "1"
config = { version = "0.14", default-features = false, features = ["toml"] }
flate2 = "1"
html-escape = "0.2"
indexmap = "2"
petgraph = "0.6"
regex = "1"
serde = { version = "1", features = ["derive"] }
serde_json = "1"
tera = { version = "1", default-features = false }
tokio = { version = "1", features = ["rt-multi-thread", "macros", "io-std", "io-util", "sync", "time"] }
tracing = "0.1"
tracing-subscriber = { version = "0.3", features = ["env-filter", "json", "fmt"] }
walkdir = "2"
zip = { version = "2", default-features = false, features = ["deflate"] }

[dev-dependencies]
tempfile = "3"
