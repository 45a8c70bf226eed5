[package]
name = "oeis_tui"
version = "0.1.0"
edition = "2021"
publish = false

[dependencies]
urlencoding = "*"
rusqlite = { version = "*", features = ["bundled"] }
serde = { version = "*", features = ["derive"] }
serde_json = "*"
chrono = "*"
dirs = "*"
rand = "*"
clap = { version = "*", features = ["derive"] }
tokio = { version = "*", features = ["rt-multi-thread", "macros"] }
reqwest = { version = "*", default-features = false, features = ["rustls-tls"] }
