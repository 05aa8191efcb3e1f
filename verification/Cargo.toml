[package]
name = "rush_qdrant"
version = "0.1.0"
edition = "2021"
publish = false

[dependencies]
actix-web = { version = "=4.18.1", default-features = false }
anyhow = "=1.0.104"
clap = { version = "=4.6.7", features = ["derive"] }
crossbeam-channel = "=0.5.17"
hf-hub = { version = "=0.4.3", default-features = false, features = ["ureq"] }
notify = "=8.2.1"
num_cpus = "=1.17.0"
ort = { version = "=2.0.0-rc.11", default-features = false, features = ["std", "load-dynamic", "cuda"] }
rand = "=0.9.5"
rayon = "=1.12.0"
reqwest = { version = "=0.12.28", default-features = false, features = ["blocking", "json"] }
serde = { version = "=1.0.229", features = ["derive"] }
serde_json = "=1.0.154"
sha2 = "=0.10.9"
shellexpand = "=3.1.2"
tokenizers = { version = "=0.21.4", default-features = false, features = ["onig"] }
uuid = { version = "=1.29.0", features = ["v4"] }
walkdir = "=2.5.0"
