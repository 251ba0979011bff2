[package]
name = "bckt"
version = "0.1.0"
edition = "2021"
publish = false

[dependencies]
anyhow = "1"
blake3 = "1"
clap = { version = "4", features = ["derive"] }
comrak = { version = "0.39", default-features = false, features = ["shortcodes"] }
isolang = "2"
mime_guess = "2"
minijinja = "2"
notify = "8"
percent-encoding = "2"
serde = { version = "1", features = ["derive"] }
serde_json = "1"
serde_yaml = "0.9"
sled = "0.34"
time = { version = "0.3", features = ["formatting", "parsing", "macros"] }
tiny_http = "0.12"
ureq = { version = "2", features = ["json"] }
url = "2"
walkdir = "2"
zip = { version = "2", default-features = false, features = ["deflate"] }
