[package]
name = "dexdey"
version = "0.1.0"
edition = "2021"
publish = false

[dependencies]
hmac = "0.12"
sha2 = "0.10"
md-5 = "0.10"
uuid = "1"
bytes = "1"
tokio = { version = "1", features = ["full"] }
thiserror = "2"
tracing = "0.1"
serde = { version = "1", features = ["derive"] }
serde_json = "1"
reqwest = { version = "0.12", default-features = false, features = ["json"] }
jni = { version = "*", features = ["invocation"] }
zip = { version = "2", default-features = false, features = ["deflate"] }
