[package]
name = "asteria_agent"
version = "0.1.0"
edition = "2021"
publish = false

[dependencies]
anyhow = "=1.0.104"
async-trait = "=0.1.92"
chrono = "=0.4.45"
dotenvy = "=0.15.7"
futures = "=0.3.34"
globset = "=0.4.21"
http = "=1.5.0"
meval = "=0.2.0"
nu-ansi-term = "=0.50.3"
quick-xml = "=0.37.5"
reedline = { version = "=0.52.1", features = ["external_printer"] }
regex = "=1.13.1"
reqwest = { version = "=0.13.5", default-features = false, features = ["json", "rustls"] }
rmcp = { version = "=3.8.0", features = ["client", "transport-child-process", "transport-streamable-http-client-reqwest", "auth"] }
serde = { version = "=1.0.229", features = ["derive"] }
serde_json = "=1.0.154"
terminal_size = "=0.4.4"
tokio = { version = "=1.54.1", features = ["full"] }
tokio-util = "=0.7.20"
unicode-width = "=0.2.3"
walkdir = "=2.5.0"
zip = "=9.2.2"
