[package]
name = "amax_lib"
version = "0.2.3"
edition = "2021"
publish = false

[dependencies]
chrono = "0.4"
serde = { version = "1", features = ["derive"] }
serde_json = "1"
url = "2"
lettre = { version = "0.11", default-features = false, features = ["builder", "smtp-transport"] }
reqwest = { version = "0.12", default-features = false, features = ["json", "rustls-tls"] }
tokio = { version = "1", features = ["sync", "time", "macros", "rt"] }
log = "0.4"
rusqlite = { version = "0.32", features = ["bundled"] }
windows-sys = { version = "0.59", features = ["Win32_Foundation", "Win32_Security_Cryptography"] }
