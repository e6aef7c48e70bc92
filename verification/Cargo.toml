[package]
name = "tv_digest"
version = "0.1.0"
edition = "2021"
publish = false

[dependencies]
time = { version = "0.3", features = ["serde", "macros", "formatting", "parsing"] }
serde = { version = "1", features = ["derive"] }
serde_gura = "*"
futures = "0.3"
tokio = { version = "1", features = ["macros", "rt-multi-thread"] }
reqwest = { version = "0.12", default-features = false, features = ["json", "rustls-tls"] }

[dev-dependencies]
itertools = "*"
