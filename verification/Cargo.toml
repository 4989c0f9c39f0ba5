[package]
name = "wyrcan"
version = "0.1.0"
edition = "2021"
publish = false

[dependencies]
todo_lib = "*"
chrono = "0.4"
ratatui = "0.26"
crossterm = "0.27"
tui-input = "0.8"
directories = "*"
eyre = "*"
serde = { version = "1", features = ["derive"] }
serde_json = "1"
tokio = { version = "1", features = ["macros", "rt-multi-thread"] }
url = "2"
oauth2 = "4"
graph-rs-sdk = "*"
