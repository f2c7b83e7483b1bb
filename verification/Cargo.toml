[package]
name = "wot_api"
version = "0.1.0"
edition = "2021"
publish = false

[dependencies]
jsonwebtoken = { version = "=11.1.0", features = ["rust_crypto"] }
url = "=2.5.8"
chrono = "=0.4.45"
axum = "=0.8.9"
tokio = { version = "=1.53.2", features = ["rt-multi-thread", "macros", "net", "time"] }
reqwest = { version = "=0.13.5", default-features = false, features = ["json", "form", "query"] }
serde = { version = "=1.0.229", features = ["derive"] }
serde_json = "=1.0.151"
dotenvy = "=0.15.7"
uuid = { version = "=1.27.0", features = ["v4"] }
tower-http = { version = "=0.7.1", features = ["request-id"] }
