[package]
name = "mc_client"
version = "0.1.0"
edition = "2021"
publish = false

[dependencies]
sha1 = "0.10"
uuid = { version = "1", features = ["v4"] }
reqwest = { version = "0.12", default-features = false, features = ["json", "stream", "rustls-tls"] }
tokio = { version = "1", features = ["fs", "io-util", "rt", "rt-multi-thread", "macros"] }
futures-util = "0.3"
serde = { version = "1", features = ["derive"] }
serde_json = "1"
thiserror = "2"
zip = { version = "2", default-features = false, features = ["deflate"] }
directories = "6"
