[package]
name = "nanoleaf_aws_terminator"
version = "0.1.0"
edition = "2021"
publish = false

[dependencies]
aws-config = "0.4"
aws-sdk-dynamodb = "0.4"
aws-sdk-ec2 = "0.4"
aws-sdk-s3 = "0.4"
aws-types = "0.4"
bimap = "=0.6.3"
clap = { version = "3", features = ["derive", "env"] }
colored = "2"
env_logger = "0.9"
eventsource-stream = "0.2"
fastrand = "=1.9.0"
futures = "0.3"
log = "0.4"
log-panics = "2"
reqwest = { version = "0.11", default-features = false, features = ["stream"] }
serde = { version = "1", features = ["derive"] }
serde_json = "1"
tokio = { version = "1", features = ["full"] }
