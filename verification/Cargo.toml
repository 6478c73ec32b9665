[package]
name = "stacky_sides"
version = "0.1.0"
edition = "2021"
publish = false

[dependencies]
tokio = { version = "1", features = ["macros", "rt-multi-thread", "sync"] }
axum = { version = "0.8", features = ["ws"] }
sea-orm = { version = "1.1", features = ["macros", "runtime-tokio-rustls", "sqlx-postgres", "with-json", "with-chrono", "with-uuid"] }
chrono = "0.4"
uuid = { version = "1", features = ["v4", "serde"] }
serde = { version = "1", features = ["derive"] }
serde_json = "1"
tera = "1"
url = { version = "2", features = ["serde"] }
futures = "0.3"
tower-cookies = "0.11"
tower-http = { version = "0.6", features = ["fs"] }
dotenv = "0.15"
tracing = "0.1"
tracing-subscriber = "0.3"
