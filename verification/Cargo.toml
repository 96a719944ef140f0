[package]
name = "ruggine"
version = "0.1.0"
edition = "2021"
publish = false

[dependencies]
serde = { version = "1", features = ["derive"] }
serde_json = "1"
tokio = { version = "1", features = ["macros", "rt-multi-thread", "net", "io-util", "io-std", "sync", "time"] }
once_cell = "1"
sysinfo = "0.29"
iced = { version = "0.10", default-features = false, features = ["tokio"] }
