//! Batch reads from Kafka, and scans of Delta tables.

pub mod arrow_schema;
pub mod avro;
pub mod batch;
pub mod delta;
pub mod encoding;
pub mod error;
pub mod json;
pub mod json_schema;
pub mod map;
pub mod offsets;
pub mod options;
pub mod provider;
pub mod scan_exec;
pub mod schema;
pub mod schema_registry;
pub mod stream;
pub mod table_format;
pub mod text;
