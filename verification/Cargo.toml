[package]
name = "terra_backend"
version = "0.1.0"
edition = "2021"
publish = false

[dependencies]
uuid = { version = "*", features = ["v4"] }
sha2 = "*"
chrono = "*"
bcrypt = "*"
serde = { version = "*", features = ["derive"] }
serde_json = "*"
axum = "*"
tokio = { version = "*", features = ["full"] }
jsonwebtoken = "*"
thiserror = "*"
tower-http = { version = "*", features = ["cors"] }
rand = "*"
aws-config = "*"
aws-sdk-s3 = "*"
aws-sdk-sesv2 = "*"
aws-sdk-dynamodb = "*"
