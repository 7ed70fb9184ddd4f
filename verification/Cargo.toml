[package]
name = "ssgen"
version = "0.1.0"
edition = "2021"
publish = false

[dependencies]
anyhow = "=1.0.104"
chrono = { version = "=0.4.45", features = ["serde"] }
lumis = { version = "=0.19.0", default-features = false, features = ["lang-rust", "lang-python", "lang-latex", "lang-html"] }
pulldown-cmark = "=0.13.6"
pulldown-latex = "=0.8.0"
quick-xml = "=0.42.0"
serde = { version = "=1.0.229", features = ["derive"] }
serde_json = "=1.0.154"
smallvec = { version = "=1.16.4", features = ["serde"] }
walkdir = "=2.5.0"
xxhash-rust = { version = "=0.8.19", features = ["xxh32"] }
yaml-rust2 = "=0.13.0"
