[package]
name = "watch_uploader"
version = "0.1.0"
edition = "2021"
publish = false

[dependencies]
aws-config = { version = "1", default-features = false, features = ["rt-tokio", "rustls", "behavior-version-latest"] }
aws-credential-types = "1"
aws-sdk-s3 = { version = "1", default-features = false, features = ["rt-tokio", "rustls", "behavior-version-latest"] }
aws-types = "1"
image = { version = "0.25", default-features = false }
notify = "6"
serde = { version = "1", features = ["derive"] }
serde_json = "1"
tokio = { version = "1", features = ["rt-multi-thread"] }
uuid = { version = "1", features = ["v7"] }
walkdir = "2"
