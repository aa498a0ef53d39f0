[package]
name = "ci_logs_to_otel"
version = "0.1.0"
edition = "2021"
publish = false

[dependencies]
async_executors = { version = "=0.4.2", features = ["tokio_tp"] }
async-recursion = "=0.3.2"
opentelemetry = "=0.13.0"
tokio = { version = "1", features = ["net", "time"] }
zip = { version = "=9.0.5", default-features = false, features = ["deflate"] }
