[package]
name = "tiler"
version = "0.1.0"
edition = "2021"
publish = false

[dependencies]
anyhow = "1"
bytes = "1"
dotenv = "0.15"
geo = { version = "*", default-features = false }
geo-types = "0.7"
image = { version = "0.25", default-features = false, features = ["jpeg"] }
lyon = "1"
mvt-reader = "*"
opentelemetry = "*"
opentelemetry-otlp = { version = "*", features = ["grpc-tonic"] }
opentelemetry_sdk = "*"
pmtiles = { version = "*", default-features = false, features = ["http-async", "mmap-async-tokio", "tilejson"] }
poem = "3"
resvg = "*"
serde_json = "1"
tokio = { version = "1", features = ["rt-multi-thread", "macros", "sync"] }
tracing = "0.1"
tracing-opentelemetry = "*"
tracing-subscriber = { version = "0.3", features = ["env-filter"] }
url = "2"
