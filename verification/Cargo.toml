[package]
name = "repository_engine"
version = "0.1.0"
edition = "2021"
publish = false

[dependencies]
urlencoding = "2"
deunicode = "1"
bcrypt = "*"
rand = "0.9"
anyhow = "1"
serde = { version = "1", features = ["derive"] }
serde_json = "1"
tokio = { version = "1", features = ["full"] }
tokio-postgres = "0.7"
postgres-types = "0.2"
postgres-from-row = "*"
axum = "0.8"
axum-extra = { version = "*", features = ["cookie"] }
axum-server = { version = "*", features = ["tls-rustls"] }
axum-server-dual-protocol = "*"
tracing = "0.1"
tracing-subscriber = "0.3"
chrono = "0.4"
mime_guess = "2"
tokio-util = { version = "0.7", features = ["io"] }
http-body-util = "0.1"
which = "*"
lettre = "*"
