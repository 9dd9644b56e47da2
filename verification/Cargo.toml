[package]
name = "agentsh"
version = "0.1.0"
edition = "2021"
publish = false

[dependencies]
anyhow = "=1.0.104"
nix = { version = "=0.31.3", features = ["signal", "process"] }
pty-process = { version = "=0.5.3", features = ["async"] }
rmcp = { version = "=3.5.1", features = ["server", "macros", "transport-io"] }
serde = { version = "=1.0.229", features = ["derive"] }
serde_json = "=1.0.151"
tokio = { version = "=1.53.2", features = ["full"] }
tracing = "=0.1.44"
tracing-subscriber = { version = "=0.3.23", features = ["env-filter"] }
uuid = { version = "=1.27.0", features = ["v4"] }

[dev-dependencies]
regex = "*"
