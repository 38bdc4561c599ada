[package]
name = "jb_api"
version = "0.1.0"
edition = "2021"
publish = false

[dependencies]
itertools = "=0.15.0"
serde = { version = "=1.0.229", features = ["derive"] }
serde_json = "=1.0.151"
serde_dynamo = { version = "=4.3.0", features = ["aws-sdk-dynamodb+1"] }
tokio = { version = "=1.53.2", features = ["macros", "rt-multi-thread"] }
axum = "=0.8.9"
lambda_http = "=1.3.1"
lambda_runtime = "=1.4.0"
tower-http = { version = "=0.7.1", features = ["trace", "normalize-path"] }
aws-config = { version = "=1.12.0", features = ["behavior-version-latest"] }
aws-sdk-dynamodb = "=1.130.0"
aws-sdk-cognitoidentityprovider = "=1.139.0"
aws-sdk-bedrockagentruntime = "=1.145.0"
aws_lambda_events = "=1.2.0"
alcoholic_jwt = "=10039.0.0"
minreq = { version = "=3.0.0", features = ["json-using-serde"] }
anyhow = "=1.0.104"
tracing = "=0.1.44"
tracing-subscriber = "=0.3.23"
