//! Directory-listing formatter: numeric rendering with thousands separators
//! and human-readable size prefixes, permission-bit decoding, timestamp
//! rendering, a two-pass column-width negotiator for long-form listings, and
//! a best-fit grid packer for short-form listings.

pub mod entry;
pub mod grid;
pub mod long;
pub mod numfmt;
pub mod parse;
pub mod perms;
pub mod term;
pub mod text;
pub mod timefmt;
