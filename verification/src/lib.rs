//! Work-log extraction and aggregation: parse the text a version-control
//! tool dumps for a date range, resolve each commit's branch, and fold the
//! records into per-author and total report files.
//!
//! All text is handled as UTF-8 bytes (`Vec<u8>`); the record separators and
//! markers are ASCII, so byte-level scanning never splits a multi-byte
//! character.

use vstd::prelude::*;

pub mod branch;
pub mod laws;
pub mod parser;
pub mod pipeline;
pub mod record;
pub mod report;
pub mod text;
