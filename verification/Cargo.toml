[package]
name = "jeffy_quintet"
version = "0.1.0"
edition = "2021"
publish = false

[dependencies]
borsh = "1"
bytes = "1"
quinn = "0.10"
quinn-proto = "0.10"
tokio = { version = "1", features = ["rt-multi-thread", "sync", "macros", "time"] }
tokio-util = { version = "0.7", features = ["codec"] }
futures = "0.3"
rustls = "0.21"
rustls-pemfile = "1"
rcgen = "0.11"
sha2 = "0.10"
