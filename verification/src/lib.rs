//! Per-core CPU utilization over an interval: a parser for the kernel's
//! textual counter dump, a delta/utilization computation between two
//! samples, and a quantizing renderer into a bounded glyph palette.

pub mod model;
pub mod parser;
pub mod render;
pub mod utilization;
