[package]
name = "applib"
version = "0.1.0"
edition = "2021"
publish = false

[dependencies]
quick-xml = "0.36"
ring = "0.17"
hex = "0.4"
fastrand = "2"
tokio = { version = "1", features = ["full"] }
reqwest = { version = "0.12", default-features = false }
actix-web = { version = "4", default-features = false, features = ["macros"] }
futures = "0.3"
ini = "1"
serde = { version = "1", features = ["derive"] }
thiserror = "1"
anyhow = "1"
