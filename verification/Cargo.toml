[package]
name = "task_shell"
version = "0.1.0"
edition = "2021"
publish = false

[dependencies]
futures = "0.3"
tokio = { version = "1", features = ["fs", "process", "rt"] }
