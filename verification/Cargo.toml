[package]
name = "rhymr_rs"
version = "0.1.0"
edition = "2021"
publish = false

[dependencies]
hypher = "=0.1.8"
rphonetic = "=4.0.0"
cmudict-fast = "=0.8.0"
log = "=0.4.35"
dirs = "=7.0.0"
serde = { version = "=1.0.229", features = ["derive"] }
serde_json = "=1.0.154"
git2 = { version = "=0.21.0", default-features = false }
grass = { version = "*", default-features = false }
