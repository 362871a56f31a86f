//! A broadcast hub for named event buckets: bounded history, subscriber
//! bookkeeping, per-minute admission control, and the text parsers that
//! turn a submitted line into labelled fields.

pub mod admission;
pub mod base64;
pub mod channel;
pub mod channel_manager;
pub mod clock;
pub mod color_utils;
pub mod feed;
pub mod fields;
pub mod ingest;
pub mod json_fields;
pub mod legacy_headers;
pub mod models;
pub mod parsers;
pub mod rate;
pub mod structured_headers;
pub mod subscription;
pub mod text;
