[package]
name = "multilite"
version = "0.1.0"
edition = "2021"
publish = false

[dependencies]
getrandom = "0.3"
parking_lot = "0.12"
rusqlite = { version = "0.37", features = ["bundled", "functions", "hooks"] }
sha2 = "0.10"
uuid = { version = "1", features = ["v4"] }
