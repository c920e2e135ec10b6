[package]
name = "jj_gt"
version = "0.3.12"
edition = "2021"
publish = false

[dependencies]
clap = { version = "=4.6.7", features = ["derive", "env"] }
clap_complete = { version = "=4.6.11", features = ["unstable-dynamic"] }
jj-hooks = "=0.2.1"
serde = { version = "=1.0.229", features = ["derive"] }
serde_json = "=1.0.154"
tracing = "=0.1.44"
tracing-subscriber = { version = "=0.3.23", features = ["env-filter"] }
