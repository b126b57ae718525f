//! A sink for market bars: decodes bar records, stores them under their
//! natural key and drives the consume, decode, persist, acknowledge cycle.

pub mod bar;
pub mod codec;
pub mod decimal;
pub mod ingest;
pub mod json;
pub mod pipeline;
pub mod queue;
pub mod table;
pub mod timestamp;
