//! Verified core of a spreadsheet OOXML reader/writer pair.
//!
//! The library holds the format logic of both engines: A1 addressing,
//! error-token normalization, column-width de-padding, ISO date handling,
//! targeted XML scans over worksheet and style parts, the staged writer
//! model, the save plan, and the post-save XML patch transforms.
//! File, archive and value-oracle access stay outside the library and hand
//! it plain values.
pub mod text;
pub mod addr;
pub mod errtok;
pub mod width;
pub mod iso;
pub mod cell;
pub mod xml;
pub mod scan;
pub mod styles;
pub mod patch;
pub mod book;
pub mod plan;
pub mod readfmt;
pub mod cfdv;
