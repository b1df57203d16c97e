[package]
name = "sift"
version = "0.1.0"
edition = "2021"
publish = false

[dependencies]
clap = { version = "=4.6.7", features = ["derive"] }
directories = "=6.0.0"
serde = { version = "=1.0.229", features = ["derive"] }
serde_json = "=1.0.154"
toml = "=1.1.8"
trash = "=5.2.9"
notify = "=8.2.1"
lofty = "=0.25.5"
mp4 = "=0.14.0"
kamadak-exif = "=0.6.1"
lopdf = { version = "=0.46.0", default-features = false }
zip = { version = "=9.2.2", default-features = false, features = ["deflate"] }
roxmltree = "=0.21.2"
