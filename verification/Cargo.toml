[package]
name = "kotlin_analyzer"
version = "0.1.0"
edition = "2021"
publish = false

[dependencies]
chumsky = "0.10"
ropey = "1.6"
tower-lsp = "0.20"
tokio = { version = "1", features = ["macros", "rt-multi-thread", "io-std", "sync", "time"] }
serde = { version = "1", features = ["derive"] }
serde_json = "1"
tracing = "0.1"
tracing-subscriber = { version = "0.3", features = ["env-filter", "fmt"] }
