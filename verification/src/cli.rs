//! The command surface the library serves: the parsed invocation, the three
//! operations, the output-format selector, and one search match.

use vstd::prelude::*;

verus! {

/// One parsed invocation: the chosen operation and the output format.
pub struct Cli {
    pub command: Commands,
    pub format: OutputFormat,
}

/// The three operations: list every identifier, get one secret's contents,
/// or search identifiers and keys for a pattern.
pub enum Commands {
    List,
    Get { secret_name: String },
    Search { pattern: String },
}

/// The output-format selector; it controls only rendering, never what the
/// engine computes.
#[derive(Copy, Clone, PartialEq, Eq, Structural)]
pub enum OutputFormat {
    Json,
    Plain,
}

/// One search match: a label that says what matched, and a display text.
/// A secret-level match is labelled `[Secret] <identifier>` and displays the
/// record's key count; a key-level match is labelled by the key (qualified
/// by its identifier when searching across many secrets) and displays the
/// value's rendered text.
#[derive(Debug)]
pub struct KeyValue {
    pub key: String,
    pub value: String,
}

impl View for KeyValue {
    type V = (Seq<char>, Seq<char>);

    open spec fn view(&self) -> (Seq<char>, Seq<char>) {
        (self.key@, self.value@)
    }
}

} // verus!
