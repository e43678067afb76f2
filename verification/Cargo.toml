[package]
name = "recipe_service"
version = "0.1.0"
edition = "2021"
publish = false

[dependencies]
jsonwebtoken = "9"
serde_json = "1"
password-auth = "1"
uuid = { version = "1", features = ["v4"] }
axum = "0.8"
tokio = { version = "1", features = ["rt-multi-thread", "macros", "net", "signal", "fs"] }
tower = "0.5"
tower-http = { version = "0.6", features = ["cors"] }
tower-layer = "0.3"
sqlx = { version = "0.8", default-features = false, features = ["postgres", "runtime-tokio", "macros"] }
serde = { version = "1", features = ["derive"] }
chrono = "0.4"
log = "0.4"
