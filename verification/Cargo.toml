[package]
name = "appflowy_cloud"
version = "0.1.0"
edition = "2021"
publish = false

[dependencies]
serde = { version = "=1.0.229", features = ["derive"] }
serde_json = "=1.0.154"
uuid = { version = "=1.29.0", features = ["serde"] }
sqlx = { version = "=0.8.6", default-features = false, features = ["postgres", "uuid"] }
actix-web = { version = "=4.18.1", default-features = false }
tracing = "=0.1.44"
