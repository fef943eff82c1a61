[package]
name = "calvin_rs"
version = "0.1.0"
edition = "2021"
publish = false

[dependencies]
byteorder = "1"
memmap2 = "0.9"
serde = { version = "1", features = ["derive"] }
serde_json = "1"
thiserror = "1"
clap = { version = "4", features = ["derive"] }
rustyline = "14"
tracing = "0.1"
tracing-subscriber = "0.3"
