[package]
name = "rbld"
version = "0.1.0"
edition = "2021"
publish = false

[dependencies]
anstream = "0.6"
anstyle = "1"
anyhow = "1"
chrono = "0.4"
clap = { version = "4", features = ["derive"] }
git2 = "0.20"
hostname = "0.4"
pty-process = "0.5"
rustix = { version = "1", features = ["termios", "process"] }
serde = { version = "1", features = ["derive"] }
signal-hook = "0.3"
terminal_size = "0.4"
termtree = "0.5"
toml = "0.8"
