[package]
name = "music_tagger"
version = "0.1.0"
edition = "2021"
publish = false

[dependencies]
anyhow = "1"
base64 = "0.22"
clap = { version = "4", features = ["derive"] }
colored = "*"
dotenvy = "*"
governor = "*"
indicatif = "*"
lofty = "*"
r2d2 = "*"
r2d2_sqlite = { version = "*", features = ["bundled"] }
rusqlite = { version = "*", features = ["bundled"] }
rayon = "1"
regex = "1"
reqwest = { version = "0.12", default-features = false, features = ["json", "rustls-tls"] }
rustfft = "6"
rusty-chromaprint = "*"
serde = { version = "1", features = ["derive"] }
serde_json = "1"
symphonia = { version = "*", features = ["all"] }
tokio = { version = "1", features = ["rt", "macros", "time"] }
