[package]
name = "spec_detect"
version = "0.1.0"
edition = "2021"
publish = false

[dependencies]
anyhow = "1"
async-trait = "*"
config = "*"
git2 = "*"
glob = "0.3"
globber = "*"
notify = "*"
regex = "1"
serde = { version = "1", features = ["derive"] }
serde_json = "1"
structopt = "0.3"
termion = "*"
tokio = { version = "1", features = ["full"] }
tui = "*"
