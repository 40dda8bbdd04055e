//! A verified library for reading key-value secrets out of a remote secret
//! store: parsing fetched payloads into ordered records, aggregating many
//! fetches into one store with all-or-nothing semantics, and searching
//! identifiers and keys by literal substring match.

pub mod aggregate;
pub mod cli;
pub mod errors;
pub mod parse;
pub mod record;
pub mod render;
pub mod search;
pub mod text;
pub mod value;

pub use text::contains_substring;
pub use value::value_to_string;
