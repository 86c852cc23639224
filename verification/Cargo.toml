[package]
name = "sail-kafka"
version = "0.1.0"
edition = "2021"
publish = false

[dependencies]
arrow = { version = "=59.3.2", default-features = false }
arrow-avro = { version = "=59.3.2", default-features = false }
arrow-json = "=59.3.2"
async-trait = "=0.1.92"
datafusion = { version = "=55.2.0", default-features = false, features = ["parquet"] }
futures = "=0.3.34"
log = "=0.4.35"
object_store = { version = "=0.13.2", default-features = false }
rdkafka = { version = "=0.39.0", default-features = false }
regex = "=1.13.1"
reqwest = { version = "=0.13.5", default-features = false }
serde_json = "=1.0.154"
thiserror = "=2.0.21"
