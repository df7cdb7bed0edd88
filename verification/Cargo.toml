[package]
name = "lodestar"
version = "0.1.0"
edition = "2021"
publish = false

[dependencies]
axum = "=0.7.9"
getrandom = "=0.2.17"
hex = "=0.4.3"
serde = { version = "=1.0.229", features = ["derive"] }
sqlx = { version = "=0.8.6", default-features = false, features = ["postgres", "runtime-tokio", "tls-rustls-ring-webpki"] }
time = "=0.3.55"
tokio = { version = "=1.54.1", features = ["rt-multi-thread", "net", "io-util", "time", "macros", "sync"] }
tracing = "=0.1.44"
