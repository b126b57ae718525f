[package]
name = "bar_sink"
version = "0.1.0"
edition = "2021"
publish = false

[dependencies]
bigdecimal = "0.1"
chrono = "0.4"
clap = "2"
diesel = { version = "1.4", features = ["postgres", "chrono", "numeric"] }
env_logger = "0.7"
kafka = { version = "0.8", default-features = false }
log = "0.4"
serde_json = { version = "1", features = ["arbitrary_precision"] }
