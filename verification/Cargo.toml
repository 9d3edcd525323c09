[package]
name = "ttml_processor"
version = "0.1.0"
edition = "2021"
publish = false

[dependencies]
quick-xml = "*"
hyphenation = { version = "*", features = ["embed_en-us"] }
unicode-segmentation = "*"
serde = { version = "1", features = ["derive"] }
serde_json = "1"
clap = { version = "4", features = ["derive"] }
env_logger = "*"
log = "0.4"
anyhow = "1"
thiserror = "*"
chrono = "*"
rand = "*"
rayon = "*"
indicatif = "*"
tokio = { version = "1", features = ["full"] }
tracing = "*"
tracing-subscriber = { version = "*", features = ["env-filter"] }
reqwest = "*"
octocrab = "*"
annotate-snippets = "*"
amll-lyric = "*"
