[package]
name = "omitfs"
version = "0.4.0"
edition = "2021"
publish = false

[dependencies]
aes-gcm = "=0.10.3"
anyhow = "1"
axum = { version = "0.7", default-features = false, features = ["http1", "json", "query", "tokio"] }
candle-core = "0.8"
candle-nn = "0.8"
candle-transformers = "0.8"
clap = { version = "4", default-features = false, features = ["derive", "std", "help", "usage", "error-context"] }
dirs = "5"
fuser = { version = "0.15", default-features = false }
futures = "0.3"
hf-hub = { version = "0.4", default-features = false, features = ["ureq", "rustls-tls"] }
libc = "0.2"
notify = { version = "6", default-features = false, features = ["macos_kqueue"] }
pdf-extract = "0.7"
reqwest = { version = "0.12", default-features = false, features = ["json", "stream", "rustls-tls"] }
serde = { version = "1", features = ["derive"] }
serde_json = "=1.0.154"
sha2 = "=0.11.1"
shellexpand = "3"
tokenizers = { version = "0.20", default-features = false, features = ["onig"] }
tokio = { version = "1", features = ["rt-multi-thread", "macros", "io-std", "io-util", "sync", "net"] }
tokio-stream = "0.1"
toml = "0.8"
tracing = "0.1"
tracing-appender = "0.2"
tracing-subscriber = { version = "0.3", default-features = false, features = ["fmt", "std"] }
uuid = { version = "=1.29.0", features = ["v4"] }
