[package]
name = "magneto"
version = "0.1.0"
edition = "2021"
publish = false

[dependencies]
base64 = "0.22"
urlencoding = "2"
mime_guess = "2"
rand = "0.9"
directories = "6"
url = "2"
serde = { version = "1", features = ["derive"] }
serde_json = "1"
toml = "0.8"
anyhow = "1"
clap = { version = "4", features = ["derive"] }
tokio = { version = "1", features = ["rt-multi-thread", "macros", "time", "net"] }
tokio-tungstenite = "*"
futures-util = "0.3"
libc = "0.2"
