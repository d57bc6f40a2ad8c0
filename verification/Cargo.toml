[package]
name = "stockkit"
version = "0.1.0"
edition = "2021"
publish = false

[dependencies]
anyhow = "1"
async-trait = "0.1"
axum = { version = "0.8", default-features = false, features = ["http1", "tokio", "json"] }
chrono = { version = "0.4", default-features = false, features = ["clock", "std"] }
encoding_rs = "0.8"
rand = { version = "0.9", default-features = false, features = ["std", "std_rng", "thread_rng"] }
regex = "1"
reqwest = { version = "0.12", default-features = false, features = ["blocking"] }
scraper = { version = "0.22", default-features = false }
serde = { version = "1", features = ["derive"] }
serde_json = "1"
tera = { version = "1", default-features = false }
tokio = { version = "1", features = ["rt-multi-thread", "macros", "net", "fs", "time"] }
tower-http = { version = "0.6", default-features = false, features = ["fs"] }
tracing = "0.1"
tracing-subscriber = { version = "0.3", default-features = false, features = ["fmt", "std"] }
