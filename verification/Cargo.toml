[package]
name = "arch_updates_rs"
version = "0.1.0"
edition = "2021"
publish = false

[dependencies]
futures = "=0.3.34"
raur = "=7.0.0"
reqwest = "=0.12.28"
srcinfo = "=1.3.1"
thiserror = "=1.0.69"
tokio = { version = "=1.54.1", features = ["macros", "process"] }
version-compare = "=0.2.1"
