[package]
name = "puppy_find"
version = "0.1.0"
edition = "2021"
publish = false

[dependencies]
anyhow = "=1.0.104"
axum = "=0.8.9"
dirs = "=6.0.0"
mime_guess = "=2.0.5"
omni_search = { version = "=0.2.6", default-features = false, features = ["runtime-dynamic"] }
# omni_search does not build with later release candidates of ort.
ort = { version = "=2.0.0-rc.12", default-features = false }
rfd = { version = "=0.17.2", default-features = false, features = ["xdg-portal"] }
rusqlite = { version = "=0.41.1", features = ["bundled"] }
rust-embed = { version = "=8.13.0", features = ["interpolate-folder-path"] }
serde = { version = "1", features = ["derive"] }
time = { version = "=0.3.55", features = ["formatting"] }
tokio = { version = "1", features = ["full"] }
tracing = "0.1"
tracing-appender = "0.2"
tracing-subscriber = { version = "0.3", features = ["env-filter"] }
walkdir = "2"
webbrowser = "1"
