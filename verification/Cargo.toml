[package]
name = "chart_server"
version = "0.1.0"
edition = "2021"
publish = false

[dependencies]
chrono = "0.4"
serde_json = "1"
ratatui = "0.29"
crossterm = "0.28"
color-eyre = "0.6"
dotenvy = "0.15"
rustyline = "14"
dirs = "5"
tracing = "0.1"
tracing-subscriber = "0.3"
