[package]
name = "autarch_readme"
version = "0.1.0"
edition = "2021"
publish = false

[dependencies]
anyhow = "=1.0.104"
chrono = "=0.4.45"
graphql_client = { version = "=0.16.0", features = ["reqwest"] }
human_bytes = "=0.4.3"
lastfm-rs = "=0.5.0"
reqwest = "=0.12.28"
rss = "=2.1.2"
serde = { version = "=1.0.229", features = ["derive"] }
tinytemplate = "=1.2.1"
tokio = { version = "=1.54.1", features = ["macros", "rt-multi-thread"] }
tracing = "=0.1.44"
tracing-subscriber = "=0.3.23"
urlencoding = "=2.1.3"
