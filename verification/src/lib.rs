//! Bind a typed configuration schema to values taken from an environment
//! snapshot.
//!
//! A schema is an ordered list of field descriptors per record type, held in
//! a [`schema::SchemaArena`]. Each field carries a declared type, an
//! optionality flag and attribute overrides (alternate variable name, default
//! literal, help text, custom parsing). From the same descriptor tree the
//! library derives two things that are proved consistent with each other:
//! a populated configuration instance ([`resolve::populate`]) and a flat
//! documentation map of every recognized variable ([`help::collect_help`]).

pub mod attrs;
pub mod coerce;
pub mod help;
pub mod laws;
pub mod resolve;
pub mod schema;
pub mod snapshot;
pub mod strutil;
pub mod value;
