[package]
name = "router_container"
version = "0.1.0"
edition = "2021"
publish = false

[dependencies]
aws_lambda_events = { version = "*", default-features = false, features = ["apigw"] }
lambda_runtime = "*"
once_cell = "1"
proc-macro2 = "1"
quote = "1"
serde_json = "1"
syn = { version = "2", features = ["full"] }
tokio = { version = "1", features = ["macros"] }
