[package]
name = "hrdf_parser"
version = "0.1.0"
edition = "2021"
publish = false

[dependencies]
chrono = "0.4"
rustc-hash = "2"
regex = "1"
serde = { version = "1", features = ["derive"] }
bincode = "1"
sha2 = "0.10"
url = "2"
zip = { version = "2", default-features = false, features = ["deflate"] }
reqwest = { version = "0.12", default-features = false, features = ["rustls-tls"] }
tokio = { version = "1", features = ["macros", "rt-multi-thread", "net"] }
axum = "0.7"
tower-http = { version = "0.5", features = ["cors"] }
log = "0.4"
contour = "0.13"
rayon = "1"
strum = { version = "0.26", features = ["derive"] }
