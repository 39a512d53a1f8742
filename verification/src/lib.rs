//! An append-only columnar time-series store layered over an ordered,
//! transactional byte-key/byte-value engine.
//!
//! This crate holds everything that can be decided without touching the
//! engine: the type-code schema, the composite key and its ordering, the
//! fixed-width value layout, the line grammar, the ingestion rules and the
//! query strategy. Every executable function carries a contract that Verus
//! proves; the few calls into other crates sit behind wrappers whose
//! contracts are stated next to them.
//!
//! A write run goes line by line through [`line::parse_line`] and
//! [`ingest::Ingestion::accept`] and performs what each line asks for. A read
//! opens a [`query::Reader`], walks the span of keys it names and prints the
//! rows that [`query::Reader::read`] keeps. A metadata query prints the lines
//! of [`info::describe`]. What holds of whole runs is proved in [`model`].

pub mod bigendian;
pub mod command;
pub mod decimal;
pub mod error;
pub mod info;
pub mod ingest;
pub mod key;
pub mod line;
pub mod model;
pub mod order;
pub mod query;
pub mod schema;
pub mod timestamp;
pub mod value;
