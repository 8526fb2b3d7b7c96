[package]
name = "gh_credential_helper"
version = "0.1.0"
edition = "2021"
publish = false

[dependencies]
anyhow = "*"
env_logger = "*"
jsonwebtoken = "=9.3.1"
log = "*"
octocrab = "=0.44.1"
secrecy = "*"
structopt = "*"
tokio = { version = "*", features = ["macros", "rt-multi-thread"] }

[dev-dependencies]
serde_json = "*"
