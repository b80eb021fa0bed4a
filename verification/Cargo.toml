[package]
name = "tasuku_rs"
version = "0.1.0"
edition = "2021"
publish = false

[dependencies]
crossterm = "*"
futures = "*"
once_cell = "*"
parking_lot = "*"
tokio = { version = "*", features = ["rt-multi-thread", "macros", "time", "sync"] }
