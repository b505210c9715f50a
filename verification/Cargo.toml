[package]
name = "delta_upsert"
version = "0.1.0"
edition = "2021"
publish = false

[dependencies]
uuid = { version = "=1.27.0", default-features = false, features = ["v4"] }
deltalake = { version = "=0.20.1", default-features = false, features = ["datafusion"] }
tokio = { version = "=1.53.2", default-features = false, features = ["macros", "rt-multi-thread"] }
chrono = { version = "=0.4.37", default-features = false }
