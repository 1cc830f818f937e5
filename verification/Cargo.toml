[package]
name = "layer8_proxy"
version = "0.1.0"
edition = "2021"
publish = false

[dependencies]
jsonwebtoken = { version = "=11.1.0", features = ["rust_crypto"] }
serde = { version = "=1.0.229", features = ["derive"] }
serde_json = "=1.0.151"
hex = "=0.4.3"
base64 = "=0.23.1"
uuid = { version = "=1.27.0", features = ["v4"] }
url = "=2.5.8"
x509-parser = "=0.18.1"
chrono = "=0.4.45"
pingora = "*"
reqwest = { version = "=0.12.28", default-features = false, features = ["json", "rustls-tls"] }
tokio = { version = "*", features = ["rt-multi-thread", "macros"] }
async-trait = "*"
bytes = "*"
once_cell = "*"
dotenv = "*"
envy = "*"
tracing = "*"
tracing-appender = "*"
tracing-subscriber = { version = "*", features = ["json"] }
influxdb2 = "*"
futures = "*"
