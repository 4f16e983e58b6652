//! Bulk row data for an analytics service: rows written as gzip-compressed MessagePack maps
//! for import, and result rows read back incrementally from a compressed MessagePack stream,
//! with the decisions of the job poller and of the result download.
//!
//! `table_import` writes chunks of rows; `decode` and `rows` read them; `round_trip` proves
//! that what is written reads back as written; `poller`, `transport` and `endpoint` hold the
//! rules that the network client follows.

pub mod bytes;
pub mod decode;
pub mod encode;
pub mod endpoint;
pub mod error;
pub mod gzip;
pub mod poller;
pub mod prefix;
pub mod round_trip;
pub mod rows;
pub mod table_import;
pub mod transport;
pub mod value;
