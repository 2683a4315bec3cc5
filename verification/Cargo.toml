[package]
name = "bazed-core"
version = "0.1.0"
edition = "2021"
publish = false

[dependencies]
xi-rope = "0.3"
unicode-general-category = "*"
unicode-canonical-combining-class = "*"
uuid = { version = "1", features = ["v4"] }
nonempty = "*"
itertools = "*"
serde = { version = "1", features = ["derive"] }
serde_json = "1"
thiserror = "1"
tracing = "0.1"
tokio = { version = "1", features = ["rt-multi-thread", "macros", "net", "time", "sync"] }
futures = "0.3"
tokio-tungstenite = "*"
