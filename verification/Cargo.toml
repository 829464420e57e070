[package]
name = "pdf_rendering"
version = "0.1.0"
edition = "2021"
publish = false

[dependencies]
lopdf = { version = "=0.46.0", default-features = false, features = ["chrono-clock"] }
headless_chrome = "=1.0.22"
tiny_http = "=0.12.0"
tokio = { version = "=1.54.1", features = ["rt-multi-thread", "macros", "sync"] }
tonic = "=0.13.1"
tonic-health = "=0.13.1"
tonic-reflection = "=0.13.1"
prost = "=0.13.5"
prost-wkt-types = "=0.6.1"
anyhow = "=1.0.104"
log = "=0.4.34"
env_logger = "=0.11.11"
config = { version = "=0.15.27", default-features = false, features = ["json", "convert-case"] }
aws-sdk-s3 = "=1.152.0"
aws-smithy-runtime-api = "=1.19.1"
serde = { version = "=1.0.229", features = ["derive"] }
serde_json = "=1.0.154"
ulid = "=1.2.1"
