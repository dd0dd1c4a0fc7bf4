[package]
name = "kablam"
version = "0.1.0"
edition = "2021"
publish = false

[dependencies]
arboard = { version = "3", default-features = false }
crossbeam = "0.8"
crossterm = "*"
fst = { version = "0.4", features = ["levenshtein"] }
mdstream = "*"
ratatui = { version = "*", features = ["unstable-rendered-line-info"] }
serde_json = "1"
syntect = { version = "5", default-features = false, features = ["default-fancy"] }
tokio = { version = "1", features = ["full"] }
tracing = "0.1"
tracing-subscriber = { version = "0.3", features = ["env-filter"] }
