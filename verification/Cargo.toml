[package]
name = "vscode_search_provider"
version = "0.1.0"
edition = "2021"
publish = false

[dependencies]
anyhow = "1"
clap = "2"
dirs = "3"
env_logger = "0.8"
gio = "0.9"
glib = "0.10"
indexmap = "1"
libc = "0.2"
log = "0.4"
serde = { version = "1", features = ["derive"] }
serde_json = "1"
zbus = "1"
