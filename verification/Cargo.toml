[package]
name = "youtube_subscriptions"
version = "0.1.0"
edition = "2021"
publish = false

[dependencies]
sxd-document = "*"
sxd-xpath = "*"
serde = { version = "*", features = ["derive"] }
serde_json = "*"
ureq = "*"
dirs = "*"
terminal_size = "*"
webbrowser = "*"
rayon = "*"
crossterm = "*"
crossterm_input = "*"
