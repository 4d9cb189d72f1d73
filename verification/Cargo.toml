[package]
name = "control_aws"
version = "0.1.0"
edition = "2021"
publish = false

[dependencies]
aws-config = { version = "1", default-features = false, features = ["rt-tokio"] }
aws-sdk-organizations = { version = "1", default-features = false, features = ["rt-tokio"] }
aws-smithy-runtime-api = { version = "1", features = ["client"] }
aws-smithy-types = { version = "1" }
serde = { version = "1", features = ["derive"] }
thiserror = { version = "1" }
tokio = { version = "1", features = ["rt"] }
