[package]
name = "xmtp_mls"
version = "0.1.0"
edition = "2021"
publish = false

[dependencies]
hex = "0.4"
serde = { version = "1", features = ["derive"] }
diesel = { version = "2", features = ["sqlite"] }
diesel_migrations = "2"
libsqlite3-sys = { version = "*", features = ["bundled"] }
futures = "0.3"
tracing = "0.1"
