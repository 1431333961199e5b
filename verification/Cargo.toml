[package]
name = "mq_content_lint"
version = "0.1.0"
edition = "2021"
publish = false

[dependencies]
mq-markdown = "=0.10.0"
mq-lang = { version = "=0.10.0", features = ["mock-io"] }
serde = { version = "=1.0.229", features = ["derive"] }
serde_json = "=1.0.154"
serde_yaml = "=0.9.34"
toml = "=1.1.8"
thiserror = "=2.0.21"
clap = { version = "=4.6.7", features = ["derive"] }
clap_complete = "=4.6.11"
clap_mangen = "=0.3.3"
colored = "=3.1.1"
ec4rs = "=1.2.0"
ignore = "=0.4.34"
miette = "=7.6.0"
rayon = "=1.12.0"
similar = "=3.2.1"
tokio = { version = "=1.54.1", features = ["io-std", "macros", "rt-multi-thread", "time"] }
tower-lsp = "=0.20.0"
