[package]
name = "port_scanner"
version = "0.1.0"
edition = "2021"
publish = false

[dependencies]
clap = { version = "4", features = ["derive"] }
crossterm = "*"
tokio = { version = "1", features = ["rt-multi-thread", "macros", "net", "time", "sync"] }
