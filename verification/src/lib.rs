//! Codec and merge tool for the chunked binary plugin format used by a
//! family of open-world game engines.
//!
//! The heart of the crate is a verified decoder ([`parser::parse`]) and
//! encoder ([`writer::write_plugin`]) for the record/subrecord framing,
//! together with a merge step ([`merge`]) that unions the music-track
//! records of a whole load order into one output plugin.

pub mod game;
pub mod merge;
pub mod model;
pub mod parser;
pub mod reader;
pub mod roundtrip;
pub mod wire;
pub mod writer;
