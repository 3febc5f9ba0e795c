[package]
name = "stream_worker"
version = "0.1.0"
edition = "2021"
publish = false

[dependencies]
serde = { version = "*", features = ["derive"] }
serde_json = "*"
tokio = { version = "*", features = ["sync", "macros", "rt-multi-thread", "time"] }
tokio-stream = "*"
reqwest = { version = "*", default-features = false, features = ["json", "stream"] }
actix-web = { version = "*", default-features = false, features = ["macros"] }
chrono = { version = "*", default-features = false, features = ["clock"] }
dotenv = "*"
