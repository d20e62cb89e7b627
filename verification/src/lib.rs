//! A record codec layer for a streaming data-processing system: parsers that
//! turn bytes from heterogeneous sources (delimited text, JSON lines,
//! change-data-capture envelopes, raw blobs, pre-typed rows) into
//! schema-validated change events, formatters that turn change events into
//! target payloads (delimited text, JSON lines, SQL statements), and a
//! multi-worker commit coordinator that advances a global watermark.

pub mod value;
pub mod text;
pub mod num;
pub mod errors;
pub mod events;
pub mod jsonio;
pub mod jsontext;
pub mod schema;
pub mod codec;
pub mod dsv;
pub mod jsonvalues;
pub mod jsonlines;
pub mod debezium;
pub mod identity;
pub mod transparent;
pub mod coordinator;
pub mod psql;
