[package]
name = "weather_api"
version = "0.1.0"
edition = "2021"
publish = false

[dependencies]
actix-web = "4"
serde = { version = "1", features = ["derive"] }
serde_json = "1"
utoipa = "*"
utoipa-swagger-ui = { version = "*", features = ["actix-web", "vendored"] }
