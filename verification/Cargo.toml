[package]
name = "prefix_scan"
version = "0.1.0"
edition = "2021"
publish = false

[dependencies]
anyhow = "*"
futures = "*"
rattler_conda_types = "*"
tokio = { version = "*", features = ["rt"] }
