[package]
name = "esthri"
version = "0.1.0"
edition = "2021"
publish = false

[dependencies]
async-compression = { version = "*", features = ["gzip", "futures-io"] }
futures = "*"
tokio = { version = "*", features = ["macros", "rt-multi-thread", "fs", "io-util"] }
aws-sdk-s3 = "*"
aws-config = { version = "*", features = ["behavior-version-latest"] }
bytes = "*"
