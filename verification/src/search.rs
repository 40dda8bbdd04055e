//! The two-level pattern search: given an assembled store and a literal
//! pattern, produce the ordered list of matches, at secret level (the
//! identifier contains the pattern) and at key level (a key contains it).

use vstd::prelude::*;
use vstd::string::*;
use crate::cli::KeyValue;
use crate::errors::NoMatches;
use crate::record::{entries_sorted, store_wf, RecordModel, SecretStore};
use crate::text::{contains_pattern, contains_substring, dec_digits, lex_lt, usize_to_string};
use crate::value::{spec_render, value_to_string, ValueModel};

verus! {

/// How a key-level match is labelled: qualified by its identifier (a search
/// across many secrets) or by the key alone (single-secret mode). The caller
/// picks the mode explicitly; the engine is agnostic to store cardinality.
#[derive(Copy, Clone, PartialEq, Eq, Structural)]
pub enum LabelMode {
    Qualified,
    Bare,
}

/// The label of a secret-level match.
pub open spec fn secret_label(name: Seq<char>) -> Seq<char> {
    "[Secret] "@ + name
}

/// The display text of a secret-level match: the record's key count.
pub open spec fn secret_display(count: nat) -> Seq<char> {
    dec_digits(count) + " keys"@
}

/// The label of a key-level match.
pub open spec fn key_label(mode: LabelMode, name: Seq<char>, key: Seq<char>) -> Seq<char> {
    match mode {
        LabelMode::Qualified => name + "/"@ + key,
        LabelMode::Bare => key,
    }
}

/// The secret-level part of one record's matches: one entry when the
/// identifier contains the pattern, none otherwise.
pub open spec fn secret_part(r: RecordModel, p: Seq<char>) -> Seq<(Seq<char>, Seq<char>)> {
    if contains_pattern(r.name, p) {
        seq![(secret_label(r.name), secret_display(r.entries.len()))]
    } else {
        Seq::empty()
    }
}

/// The key-level part of one record's matches: one entry per key that
/// contains the pattern, in the record's key order.
pub open spec fn key_part(
    mode: LabelMode,
    name: Seq<char>,
    entries: Seq<(Seq<char>, ValueModel)>,
    p: Seq<char>,
) -> Seq<(Seq<char>, Seq<char>)>
    decreases entries.len(),
{
    if entries.len() == 0 {
        Seq::empty()
    } else {
        (if contains_pattern(entries[0].0, p) {
            seq![(key_label(mode, name, entries[0].0), spec_render(entries[0].1))]
        } else {
            Seq::empty()
        }) + key_part(mode, name, entries.skip(1), p)
    }
}

/// One record's matches: its secret-level match (if any) first, then its
/// key-level matches.
pub open spec fn record_block(r: RecordModel, p: Seq<char>, mode: LabelMode) -> Seq<
    (Seq<char>, Seq<char>),
> {
    secret_part(r, p) + key_part(mode, r.name, r.entries, p)
}

/// The whole search output: the records' blocks concatenated in store order.
pub open spec fn spec_search(store: Seq<RecordModel>, p: Seq<char>, mode: LabelMode) -> Seq<
    (Seq<char>, Seq<char>),
>
    decreases store.len(),
{
    if store.len() == 0 {
        Seq::empty()
    } else {
        record_block(store[0], p, mode) + spec_search(store.skip(1), p, mode)
    }
}

// ---------------------------------------------------------------------------
// Structure of the output
// ---------------------------------------------------------------------------

/// Key-level matching distributes over splitting the entries.
pub proof fn lemma_key_part_split(
    mode: LabelMode,
    name: Seq<char>,
    a: Seq<(Seq<char>, ValueModel)>,
    b: Seq<(Seq<char>, ValueModel)>,
    p: Seq<char>,
)
    ensures
        key_part(mode, name, a + b, p) == key_part(mode, name, a, p) + key_part(mode, name, b, p),
    decreases a.len(),
{
    if a.len() == 0 {
        assert(a + b =~= b);
        assert(key_part(mode, name, a, p) + key_part(mode, name, b, p) =~= key_part(
            mode,
            name,
            b,
            p,
        ));
    } else {
        assert((a + b).skip(1) =~= a.skip(1) + b);
        assert((a + b)[0] == a[0]);
        lemma_key_part_split(mode, name, a.skip(1), b, p);
        let first = if contains_pattern(a[0].0, p) {
            seq![(key_label(mode, name, a[0].0), spec_render(a[0].1))]
        } else {
            Seq::<(Seq<char>, Seq<char>)>::empty()
        };
        assert(first + (key_part(mode, name, a.skip(1), p) + key_part(mode, name, b, p)) =~= (first
            + key_part(mode, name, a.skip(1), p)) + key_part(mode, name, b, p));
    }
}

/// The key-level matches of a single entry.
proof fn lemma_key_part_one(
    mode: LabelMode,
    name: Seq<char>,
    x: (Seq<char>, ValueModel),
    p: Seq<char>,
)
    ensures
        key_part(mode, name, seq![x], p) == if contains_pattern(x.0, p) {
            seq![(key_label(mode, name, x.0), spec_render(x.1))]
        } else {
            Seq::<(Seq<char>, Seq<char>)>::empty()
        },
{
    assert(seq![x].len() == 1);
    assert(seq![x][0] == x);
    assert(seq![x].skip(1) =~= Seq::<(Seq<char>, ValueModel)>::empty());
    assert(key_part(mode, name, seq![x].skip(1), p) =~= Seq::<(Seq<char>, Seq<char>)>::empty());
    let first = if contains_pattern(x.0, p) {
        seq![(key_label(mode, name, x.0), spec_render(x.1))]
    } else {
        Seq::<(Seq<char>, Seq<char>)>::empty()
    };
    assert(first + Seq::<(Seq<char>, Seq<char>)>::empty() =~= first);
}

/// Matches for earlier identifiers precede all matches for later ones: the
/// search output over any split of the store is the concatenation of the
/// outputs over its parts, in order.
pub proof fn lemma_search_split(
    a: Seq<RecordModel>,
    b: Seq<RecordModel>,
    p: Seq<char>,
    mode: LabelMode,
)
    ensures
        spec_search(a + b, p, mode) == spec_search(a, p, mode) + spec_search(b, p, mode),
    decreases a.len(),
{
    if a.len() == 0 {
        assert(a + b =~= b);
        assert(spec_search(a, p, mode) + spec_search(b, p, mode) =~= spec_search(b, p, mode));
    } else {
        assert((a + b).skip(1) =~= a.skip(1) + b);
        assert((a + b)[0] == a[0]);
        lemma_search_split(a.skip(1), b, p, mode);
        assert(record_block(a[0], p, mode) + (spec_search(a.skip(1), p, mode) + spec_search(
            b,
            p,
            mode,
        )) =~= (record_block(a[0], p, mode) + spec_search(a.skip(1), p, mode)) + spec_search(
            b,
            p,
            mode,
        ));
    }
}

/// The search output of a single record is its block.
proof fn lemma_search_one(r: RecordModel, p: Seq<char>, mode: LabelMode)
    ensures
        spec_search(seq![r], p, mode) == record_block(r, p, mode),
{
    assert(seq![r].len() == 1);
    assert(seq![r][0] == r);
    assert(seq![r].skip(1) =~= Seq::<RecordModel>::empty());
    assert(spec_search(seq![r].skip(1), p, mode) =~= Seq::<(Seq<char>, Seq<char>)>::empty());
    assert(record_block(r, p, mode) + Seq::<(Seq<char>, Seq<char>)>::empty() =~= record_block(
        r,
        p,
        mode,
    ));
}

/// The entries whose keys contain the pattern, in their original order.
pub open spec fn matching_entries(entries: Seq<(Seq<char>, ValueModel)>, p: Seq<char>) -> Seq<
    (Seq<char>, ValueModel),
>
    decreases entries.len(),
{
    if entries.len() == 0 {
        Seq::empty()
    } else {
        (if contains_pattern(entries[0].0, p) {
            seq![entries[0]]
        } else {
            Seq::empty()
        }) + matching_entries(entries.skip(1), p)
    }
}

proof fn lemma_matching_entries_contained(entries: Seq<(Seq<char>, ValueModel)>, p: Seq<char>)
    ensures
        forall|k: int|
            0 <= k < matching_entries(entries, p).len() ==> entries.contains(
                #[trigger] matching_entries(entries, p)[k],
            ),
    decreases entries.len(),
{
    if entries.len() > 0 {
        lemma_matching_entries_contained(entries.skip(1), p);
        let m = matching_entries(entries, p);
        let rest = matching_entries(entries.skip(1), p);
        assert forall|k: int| 0 <= k < m.len() implies entries.contains(#[trigger] m[k]) by {
            if contains_pattern(entries[0].0, p) && k == 0 {
                assert(m[0] == entries[0]);
                assert(entries.contains(entries[0]));
            } else {
                let off: int = if contains_pattern(entries[0].0, p) {
                    1
                } else {
                    0
                };
                assert(m[k] == rest[k - off]);
                assert(entries.skip(1).contains(m[k]));
                let t = choose|t: int|
                    0 <= t < entries.skip(1).len() && entries.skip(1)[t] == m[k];
                assert(entries.skip(1)[t] == entries[t + 1]);
                assert(entries.contains(entries[t + 1]));
            }
        }
    }
}

/// Key-level matches are exactly the matching entries, labelled and
/// rendered, in the record's key order; with sorted keys they come out in
/// strictly ascending key order.
pub proof fn lemma_key_part_ordered(
    mode: LabelMode,
    name: Seq<char>,
    entries: Seq<(Seq<char>, ValueModel)>,
    p: Seq<char>,
)
    requires
        entries_sorted(entries),
    ensures
        key_part(mode, name, entries, p) == matching_entries(entries, p).map_values(
            |e: (Seq<char>, ValueModel)| (key_label(mode, name, e.0), spec_render(e.1)),
        ),
        entries_sorted(matching_entries(entries, p)),
    decreases entries.len(),
{
    let f = |e: (Seq<char>, ValueModel)| (key_label(mode, name, e.0), spec_render(e.1));
    if entries.len() == 0 {
        assert(key_part(mode, name, entries, p) =~= matching_entries(entries, p).map_values(f));
    } else {
        assert(entries_sorted(entries.skip(1))) by {
            assert(forall|i: int|
                0 <= i < entries.skip(1).len() ==> #[trigger] entries.skip(1)[i] == entries[i + 1]);
        }
        lemma_key_part_ordered(mode, name, entries.skip(1), p);
        lemma_matching_entries_contained(entries.skip(1), p);
        let m = matching_entries(entries, p);
        let rest = matching_entries(entries.skip(1), p);
        assert(key_part(mode, name, entries, p) =~= m.map_values(f)) by {
            let off: int = if contains_pattern(entries[0].0, p) {
                1
            } else {
                0
            };
            assert(forall|k: int| 0 <= k < rest.len() ==> m[k + off] == rest[k]);
            assert(forall|k: int|
                0 <= k < rest.len() ==> #[trigger] rest.map_values(f)[k] == f(rest[k]));
        }
        assert(entries_sorted(m)) by {
            let off: int = if contains_pattern(entries[0].0, p) {
                1
            } else {
                0
            };
            assert forall|i: int, j: int| 0 <= i < j < m.len() implies lex_lt(m[i].0, m[j].0) by {
                if i >= off {
                    assert(m[i] == rest[i - off]);
                    assert(m[j] == rest[j - off]);
                } else {
                    // i == 0 and the first entry matched
                    assert(m[0] == entries[0]);
                    assert(m[j] == rest[j - 1]);
                    assert(entries.skip(1).contains(rest[j - 1]));
                    let t = choose|t: int|
                        0 <= t < entries.skip(1).len() && entries.skip(1)[t] == rest[j - 1];
                    assert(entries.skip(1)[t] == entries[t + 1]);
                    assert(lex_lt(entries[0].0, entries[t + 1].0));
                }
            }
        }
    }
}

/// The full ordering invariant of one search: the output decomposes, at any
/// record of a well-formed store, into the matches of the records before it,
/// that record's own block (its secret-level match first, then its key-level
/// matches in strictly ascending key order), and the matches of the records
/// after it.
pub proof fn lemma_search_ordering(
    store: Seq<RecordModel>,
    p: Seq<char>,
    mode: LabelMode,
    k: int,
)
    requires
        store_wf(store),
        0 <= k < store.len(),
    ensures
        spec_search(store, p, mode) == spec_search(store.take(k), p, mode) + (secret_part(
            store[k],
            p,
        ) + key_part(mode, store[k].name, store[k].entries, p)) + spec_search(
            store.skip(k + 1),
            p,
            mode,
        ),
        entries_sorted(matching_entries(store[k].entries, p)),
{
    assert(store =~= (store.take(k) + seq![store[k]]) + store.skip(k + 1));
    lemma_search_split(store.take(k) + seq![store[k]], store.skip(k + 1), p, mode);
    lemma_search_split(store.take(k), seq![store[k]], p, mode);
    lemma_search_one(store[k], p, mode);
    lemma_key_part_ordered(mode, store[k].name, store[k].entries, p);
}

/// Matches for an earlier identifier precede all matches for a later one:
/// whenever record `i` stands before record `j` in a well-formed store, its
/// identifier precedes lexicographically, and its whole block of matches
/// ends before the block of record `j` begins.
pub proof fn lemma_search_identifier_order(
    store: Seq<RecordModel>,
    p: Seq<char>,
    mode: LabelMode,
    i: int,
    j: int,
)
    requires
        store_wf(store),
        0 <= i < j < store.len(),
    ensures
        lex_lt(store[i].name, store[j].name),
        spec_search(store, p, mode) == spec_search(store.take(i), p, mode) + record_block(
            store[i],
            p,
            mode,
        ) + spec_search(store.subrange(i + 1, j), p, mode) + record_block(store[j], p, mode)
            + spec_search(store.skip(j + 1), p, mode),
{
    let a = store.take(i);
    let b = seq![store[i]];
    let c = store.subrange(i + 1, j);
    let d = seq![store[j]];
    let e = store.skip(j + 1);
    assert(store =~= a + b + c + d + e);
    lemma_search_split(a + b + c + d, e, p, mode);
    lemma_search_split(a + b + c, d, p, mode);
    lemma_search_split(a + b, c, p, mode);
    lemma_search_split(a, b, p, mode);
    lemma_search_one(store[i], p, mode);
    lemma_search_one(store[j], p, mode);
}

/// Searching is deterministic: the output is a function of the store, the
/// pattern and the label mode alone, so repeated searches of one store
/// return identical ordered output.
pub proof fn lemma_search_deterministic(
    store: Seq<RecordModel>,
    p: Seq<char>,
    mode: LabelMode,
    r1: Seq<(Seq<char>, Seq<char>)>,
    r2: Seq<(Seq<char>, Seq<char>)>,
)
    requires
        r1 == spec_search(store, p, mode),
        r2 == spec_search(store, p, mode),
    ensures
        r1 == r2,
{
}

// ---------------------------------------------------------------------------
// The engine
// ---------------------------------------------------------------------------

fn build_secret_label(name: &String) -> (r: String)
    ensures
        r@ == secret_label(name@),
{
    let mut s = "[Secret] ".to_owned();
    s.append(name.as_str());
    s
}

fn build_secret_display(count: usize) -> (r: String)
    ensures
        r@ == secret_display(count as nat),
{
    let mut s = usize_to_string(count);
    s.append(" keys");
    s
}

fn build_key_label(mode: LabelMode, name: &String, key: &String) -> (r: String)
    ensures
        r@ == key_label(mode, name@, key@),
{
    match mode {
        LabelMode::Qualified => {
            let mut s = name.clone();
            s.append("/");
            s.append(key.as_str());
            s
        },
        LabelMode::Bare => key.clone(),
    }
}

/// Searches the store for the pattern, at both levels, in store order.
/// Succeeds with the ordered matches exactly when there is at least one;
/// fails with `NoMatches` (carrying the pattern) when there is none — an
/// empty sequence is never returned.
pub fn search_keys(store: &SecretStore, pattern: &str, mode: LabelMode) -> (r: Result<
    Vec<KeyValue>,
    NoMatches,
>)
    ensures
        match r {
            Ok(matches) => matches@.map_values(|kv: KeyValue| kv@) == spec_search(
                store@,
                pattern@,
                mode,
            ) && spec_search(store@, pattern@, mode).len() > 0,
            Err(e) => spec_search(store@, pattern@, mode).len() == 0 && e.pattern@ == pattern@,
        },
{
    let mut out: Vec<KeyValue> = Vec::new();
    let nrec = store.records.len();
    let mut i: usize = 0;
    proof {
        assert(store@.take(0int) =~= Seq::<RecordModel>::empty());
        assert(out@.map_values(|kv: KeyValue| kv@) =~= Seq::<(Seq<char>, Seq<char>)>::empty());
    }
    while i < nrec
        invariant
            0 <= i <= nrec,
            nrec == store@.len(),
            nrec == store.records@.len(),
            out@.map_values(|kv: KeyValue| kv@) == spec_search(
                store@.take(i as int),
                pattern@,
                mode,
            ),
        decreases nrec - i,
    {
        let rec = &store.records[i];
        let ghost rm = store@[i as int];
        let ghost out_before = out@.map_values(|kv: KeyValue| kv@);
        proof {
            assert(store@[i as int] == store.records@[i as int]@);
            assert(rm.name == rec.name@);
        }
        if contains_substring(rec.name.as_str(), pattern) {
            let label = build_secret_label(&rec.name);
            let display = build_secret_display(rec.entries.len());
            let kv = KeyValue { key: label, value: display };
            proof {
                assert(rm.entries.len() == rec.entries@.len());
            }
            out.push(kv);
        }
        proof {
            assert(out@.map_values(|kv: KeyValue| kv@) =~= out_before + secret_part(rm, pattern@));
        }
        let ne = rec.entries.len();
        let mut j: usize = 0;
        proof {
            assert(rm.entries.take(0int) =~= Seq::<(Seq<char>, ValueModel)>::empty());
            assert(key_part(mode, rm.name, rm.entries.take(0int), pattern@) =~= Seq::<
                (Seq<char>, Seq<char>),
            >::empty());
            assert(out@.map_values(|kv: KeyValue| kv@) =~= out_before + secret_part(rm, pattern@)
                + key_part(mode, rm.name, rm.entries.take(0int), pattern@));
        }
        while j < ne
            invariant
                0 <= j <= ne,
                ne == rec.entries@.len(),
                rm.entries.len() == ne,
                rm.name == rec.name@,
                rm.entries == rec.entries@.map_values(
                    |e: (String, crate::value::SecretValue)| crate::record::entry_view(e),
                ),
                out@.map_values(|kv: KeyValue| kv@) == out_before + secret_part(rm, pattern@)
                    + key_part(mode, rm.name, rm.entries.take(j as int), pattern@),
            decreases ne - j,
        {
            let entry = &rec.entries[j];
            let ghost em = rm.entries[j as int];
            proof {
                assert(em == crate::record::entry_view(rec.entries@[j as int]));
            }
            let ghost out_mid = out@.map_values(|kv: KeyValue| kv@);
            if contains_substring(entry.0.as_str(), pattern) {
                let label = build_key_label(mode, &rec.name, &entry.0);
                let display = value_to_string(&entry.1);
                out.push(KeyValue { key: label, value: display });
            }
            proof {
                lemma_key_part_one(mode, rm.name, em, pattern@);
                lemma_key_part_split(
                    mode,
                    rm.name,
                    rm.entries.take(j as int),
                    seq![em],
                    pattern@,
                );
                assert(rm.entries.take(j + 1int) =~= rm.entries.take(j as int) + seq![em]);
                if contains_pattern(em.0, pattern@) {
                    assert(out@.map_values(|kv: KeyValue| kv@) =~= out_mid + seq![
                        (key_label(mode, rm.name, em.0), spec_render(em.1)),
                    ]);
                } else {
                    assert(out@.map_values(|kv: KeyValue| kv@) == out_mid);
                }
                assert(out@.map_values(|kv: KeyValue| kv@) =~= out_before + secret_part(
                    rm,
                    pattern@,
                ) + key_part(mode, rm.name, rm.entries.take(j + 1int), pattern@));
            }
            j = j + 1;
        }
        proof {
            assert(rm.entries.take(ne as int) =~= rm.entries);
            assert(store@.take(i + 1int) =~= store@.take(i as int) + seq![rm]);
            lemma_search_split(store@.take(i as int), seq![rm], pattern@, mode);
            lemma_search_one(rm, pattern@, mode);
            assert(out@.map_values(|kv: KeyValue| kv@) =~= spec_search(
                store@.take(i + 1int),
                pattern@,
                mode,
            ));
        }
        i = i + 1;
    }
    proof {
        assert(store@.take(nrec as int) =~= store@);
    }
    if out.len() == 0 {
        proof {
            assert(spec_search(store@, pattern@, mode).len() == 0);
        }
        Err(NoMatches { pattern: pattern.to_owned() })
    } else {
        Ok(out)
    }
}

} // verus!
