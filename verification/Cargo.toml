[package]
name = "net-sentinel"
version = "0.1.0"
edition = "2021"
publish = false

[dependencies]
anyhow = "=1.0.104"
async-channel = "=2.5.0"
chrono = "=0.4.45"
directories = "=6.0.0"
globset = "=0.4.21"
regex = "=1.13.1"
rfd = { version = "*", default-features = false, features = ["xdg-portal"] }
rodio = { version = "0.21", default-features = false, features = ["playback", "wav", "mp3", "flac", "vorbis"] }
rusqlite = { version = "=0.41.1", features = ["bundled"] }
serde = { version = "=1.0.229", features = ["derive"] }
serde_json = "=1.0.154"
toml = "=1.1.8"
url = "=2.5.8"
winreg = "*"

[dev-dependencies]
tempfile = "=3.27.0"
