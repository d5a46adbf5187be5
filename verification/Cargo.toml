[package]
name = "llm_cost_estimator"
version = "0.1.0"
edition = "2021"
publish = false

[dependencies]
serde_json = { version = "*", features = ["arbitrary_precision"] }
tiktoken-rs = "*"
reqwest = { version = "*", default-features = false }
tokio = { version = "*", features = ["rt"] }
