//! Rendering for the line-oriented output format: a record's key-value
//! pairs as labelled display text, and one output line per labelled pair.

use vstd::prelude::*;
use vstd::string::*;
use crate::cli::KeyValue;
use crate::record::SecretRecord;
use crate::value::{spec_render, value_to_string, ValueModel};

verus! {

/// The key-value pairs of one record, each value rendered as display text,
/// in the record's ascending key order.
pub fn record_pairs(record: &SecretRecord) -> (r: Vec<KeyValue>)
    ensures
        r@.map_values(|kv: KeyValue| kv@) == record@.entries.map_values(
            |e: (Seq<char>, ValueModel)| (e.0, spec_render(e.1)),
        ),
{
    let mut out: Vec<KeyValue> = Vec::new();
    let n = record.entries.len();
    let mut i: usize = 0;
    while i < n
        invariant
            0 <= i <= n,
            n == record.entries@.len(),
            out@.len() == i,
            forall|k: int|
                0 <= k < i ==> (#[trigger] out@[k])@ == (
                    record@.entries[k].0,
                    spec_render(record@.entries[k].1),
                ),
        decreases n - i,
    {
        let entry = &record.entries[i];
        let key = entry.0.clone();
        let value = value_to_string(&entry.1);
        proof {
            assert(record@.entries[i as int] == crate::record::entry_view(
                record.entries@[i as int],
            ));
        }
        out.push(KeyValue { key, value });
        i = i + 1;
    }
    proof {
        assert(out@.map_values(|kv: KeyValue| kv@) =~= record@.entries.map_values(
            |e: (Seq<char>, ValueModel)| (e.0, spec_render(e.1)),
        ));
    }
    out
}

/// One line of plain output for a labelled pair: the label, a separating
/// colon and space, and the display text.
pub fn render_line(kv: &KeyValue) -> (r: String)
    ensures
        r@ == kv.key@ + ": "@ + kv.value@,
{
    let mut s = kv.key.clone();
    s.append(": ");
    s.append(kv.value.as_str());
    s
}

} // verus!
