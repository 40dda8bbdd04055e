//! The in-memory data model: one secret's parsed key-value contents, and a
//! store of many such records, both kept in ascending lexicographic order.

use vstd::prelude::*;
use vstd::string::*;
use crate::text::{lex_lt, lemma_lex_lt_connected, lemma_lex_lt_irrefl, lemma_lex_lt_trans, str_lt};
use crate::value::{SecretValue, ValueModel};

verus! {

// ---------------------------------------------------------------------------
// Records
// ---------------------------------------------------------------------------

/// The mathematical shape of one record: its identifier and its key-value
/// entries, keys in ascending order.
pub struct RecordModel {
    pub name: Seq<char>,
    pub entries: Seq<(Seq<char>, ValueModel)>,
}

/// The keys of `entries` are strictly ascending (hence unique).
pub open spec fn entries_sorted(entries: Seq<(Seq<char>, ValueModel)>) -> bool {
    forall|i: int, j: int| 0 <= i < j < entries.len() ==> lex_lt(entries[i].0, entries[j].0)
}

impl RecordModel {
    pub open spec fn wf(self) -> bool {
        entries_sorted(self.entries)
    }
}

/// The view of one key-value entry.
pub open spec fn entry_view(e: (String, SecretValue)) -> (Seq<char>, ValueModel) {
    (e.0@, e.1@)
}

/// One secret's parsed contents: the identifier it was fetched under and its
/// key-value pairs, keys unique and in ascending lexicographic order.
/// Immutable once created.
#[derive(Debug)]
pub struct SecretRecord {
    pub name: String,
    pub entries: Vec<(String, SecretValue)>,
}

impl View for SecretRecord {
    type V = RecordModel;

    open spec fn view(&self) -> RecordModel {
        RecordModel {
            name: self.name@,
            entries: self.entries@.map_values(|e: (String, SecretValue)| entry_view(e)),
        }
    }
}

impl SecretRecord {
    pub open spec fn wf(self) -> bool {
        self@.wf()
    }

    /// The number of keys in this record.
    pub fn key_count(&self) -> (n: usize)
        ensures
            n == self@.entries.len(),
    {
        self.entries.len()
    }
}

// ---------------------------------------------------------------------------
// Stores
// ---------------------------------------------------------------------------

/// The identifiers of `s` are strictly ascending (hence unique).
pub open spec fn store_sorted(s: Seq<RecordModel>) -> bool {
    forall|i: int, j: int| 0 <= i < j < s.len() ==> lex_lt(s[i].name, s[j].name)
}

/// A well-formed store: identifiers ascending, every record well-formed.
pub open spec fn store_wf(s: Seq<RecordModel>) -> bool {
    store_sorted(s) && (forall|i: int| 0 <= i < s.len() ==> s[i].wf())
}

/// A collection of records keyed by identifier, kept in ascending
/// lexicographic order of identifier. A store of one record and a store of
/// many share this type; the search engine is agnostic to cardinality.
#[derive(Debug)]
pub struct SecretStore {
    pub records: Vec<SecretRecord>,
}

impl View for SecretStore {
    type V = Seq<RecordModel>;

    open spec fn view(&self) -> Seq<RecordModel> {
        self.records@.map_values(|r: SecretRecord| r@)
    }
}

/// Inserting a record into an ordered store: it lands at its ordered
/// position, and replaces the record of the same identifier if one is there.
pub open spec fn spec_store_insert(s: Seq<RecordModel>, r: RecordModel) -> Seq<RecordModel>
    decreases s.len(),
{
    if s.len() == 0 {
        seq![r]
    } else if lex_lt(r.name, s[0].name) {
        seq![r] + s
    } else if r.name == s[0].name {
        seq![r] + s.skip(1)
    } else {
        seq![s[0]] + spec_store_insert(s.skip(1), r)
    }
}

/// Every record of the inserted store is the new record or one of the old.
proof fn lemma_store_insert_elems(s: Seq<RecordModel>, r: RecordModel)
    ensures
        forall|k: int|
            0 <= k < spec_store_insert(s, r).len() ==> spec_store_insert(s, r)[k] == r
                || s.contains(spec_store_insert(s, r)[k]),
    decreases s.len(),
{
    if s.len() == 0 {
    } else if lex_lt(r.name, s[0].name) {
        assert forall|k: int| 0 <= k < spec_store_insert(s, r).len() implies spec_store_insert(
            s,
            r,
        )[k] == r || s.contains(spec_store_insert(s, r)[k]) by {
            if k > 0 {
                assert(spec_store_insert(s, r)[k] == s[k - 1]);
            }
        }
    } else if r.name == s[0].name {
        assert forall|k: int| 0 <= k < spec_store_insert(s, r).len() implies spec_store_insert(
            s,
            r,
        )[k] == r || s.contains(spec_store_insert(s, r)[k]) by {
            if k > 0 {
                assert(spec_store_insert(s, r)[k] == s.skip(1)[k - 1]);
                assert(s.skip(1)[k - 1] == s[k]);
            }
        }
    } else {
        lemma_store_insert_elems(s.skip(1), r);
        assert forall|k: int| 0 <= k < spec_store_insert(s, r).len() implies spec_store_insert(
            s,
            r,
        )[k] == r || s.contains(spec_store_insert(s, r)[k]) by {
            if k > 0 {
                assert(spec_store_insert(s, r)[k] == spec_store_insert(s.skip(1), r)[k - 1]);
                if spec_store_insert(s.skip(1), r)[k - 1] != r {
                    let x = spec_store_insert(s.skip(1), r)[k - 1];
                    let i = choose|i: int| 0 <= i < s.skip(1).len() && s.skip(1)[i] == x;
                    assert(s.skip(1)[i] == s[i + 1]);
                }
            } else {
                assert(s.contains(s[0]));
            }
        }
    }
}

/// Insertion keeps a store well-formed.
pub proof fn lemma_store_insert_wf(s: Seq<RecordModel>, r: RecordModel)
    requires
        store_wf(s),
        r.wf(),
    ensures
        store_wf(spec_store_insert(s, r)),
    decreases s.len(),
{
    let out = spec_store_insert(s, r);
    if s.len() == 0 {
    } else if lex_lt(r.name, s[0].name) {
        assert forall|i: int, j: int| 0 <= i < j < out.len() implies lex_lt(
            out[i].name,
            out[j].name,
        ) by {
            if i == 0 {
                assert(out[j] == s[j - 1]);
                if j - 1 > 0 {
                    lemma_lex_lt_trans(r.name, s[0].name, s[j - 1].name);
                }
            } else {
                assert(out[i] == s[i - 1]);
                assert(out[j] == s[j - 1]);
            }
        }
    } else if r.name == s[0].name {
        assert forall|i: int, j: int| 0 <= i < j < out.len() implies lex_lt(
            out[i].name,
            out[j].name,
        ) by {
            if i == 0 {
                assert(out[j] == s.skip(1)[j - 1]);
                assert(s.skip(1)[j - 1] == s[j]);
            } else {
                assert(out[i] == s[i]);
                assert(out[j] == s[j]);
            }
        }
        assert forall|i: int| 0 <= i < out.len() implies out[i].wf() by {
            if i > 0 {
                assert(out[i] == s[i]);
            }
        }
    } else {
        // s[0].name precedes r.name here
        if s[0].name != r.name {
            lemma_lex_lt_connected(r.name, s[0].name);
        }
        assert(lex_lt(s[0].name, r.name));
        assert(store_wf(s.skip(1))) by {
            assert(forall|i: int, j: int|
                0 <= i < j < s.skip(1).len() ==> s.skip(1)[i] == s[i + 1] && s.skip(1)[j] == s[j
                    + 1]);
            assert(forall|i: int| 0 <= i < s.skip(1).len() ==> s.skip(1)[i] == s[i + 1]);
        }
        lemma_store_insert_wf(s.skip(1), r);
        lemma_store_insert_elems(s.skip(1), r);
        let rest = spec_store_insert(s.skip(1), r);
        assert forall|i: int, j: int| 0 <= i < j < out.len() implies lex_lt(
            out[i].name,
            out[j].name,
        ) by {
            if i == 0 {
                assert(out[j] == rest[j - 1]);
                if rest[j - 1] == r {
                } else {
                    let x = rest[j - 1];
                    let k = choose|k: int| 0 <= k < s.skip(1).len() && s.skip(1)[k] == x;
                    assert(s.skip(1)[k] == s[k + 1]);
                    assert(lex_lt(s[0].name, s[k + 1].name));
                }
            } else {
                assert(out[i] == rest[i - 1]);
                assert(out[j] == rest[j - 1]);
            }
        }
        assert forall|i: int| 0 <= i < out.len() implies out[i].wf() by {
            if i > 0 {
                assert(out[i] == rest[i - 1]);
            }
        }
    }
}

/// Where the new record lands: at the first position whose identifier does
/// not precede the new one, replacing it if the identifiers are equal.
proof fn lemma_store_insert_at(s: Seq<RecordModel>, r: RecordModel, idx: int)
    requires
        0 <= idx <= s.len(),
        forall|k: int| 0 <= k < idx ==> lex_lt(s[k].name, r.name),
        idx < s.len() ==> !lex_lt(s[idx].name, r.name),
    ensures
        idx < s.len() && s[idx].name == r.name ==> spec_store_insert(s, r) == s.take(idx)
            + seq![r] + s.skip(idx + 1),
        !(idx < s.len() && s[idx].name == r.name) ==> spec_store_insert(s, r) == s.take(idx)
            + seq![r] + s.skip(idx),
    decreases idx,
{
    if idx == 0 {
        if s.len() == 0 {
            assert(spec_store_insert(s, r) =~= s.take(0) + seq![r] + s.skip(0));
        } else if s[0].name == r.name {
            lemma_lex_lt_irrefl(r.name);
            assert(spec_store_insert(s, r) =~= s.take(0) + seq![r] + s.skip(1));
        } else {
            lemma_lex_lt_connected(r.name, s[0].name);
            assert(lex_lt(r.name, s[0].name));
            assert(spec_store_insert(s, r) =~= s.take(0) + seq![r] + s.skip(0));
        }
    } else {
        assert(lex_lt(s[0].name, r.name));
        lemma_lex_lt_irrefl(s[0].name);
        assert(s[0].name != r.name);
        if lex_lt(r.name, s[0].name) {
            lemma_lex_lt_trans(r.name, s[0].name, r.name);
            lemma_lex_lt_irrefl(r.name);
        }
        assert(forall|k: int| 0 <= k < idx - 1 ==> s.skip(1)[k] == s[k + 1]);
        assert(idx - 1 < s.skip(1).len() ==> s.skip(1)[idx - 1] == s[idx]);
        lemma_store_insert_at(s.skip(1), r, idx - 1);
        let rest = s.skip(1);
        if idx < s.len() && s[idx].name == r.name {
            assert(spec_store_insert(s, r) == seq![s[0]] + (rest.take(idx - 1) + seq![r]
                + rest.skip(idx)));
            assert(seq![s[0]] + (rest.take(idx - 1) + seq![r] + rest.skip(idx)) =~= s.take(idx)
                + seq![r] + s.skip(idx + 1));
        } else {
            assert(spec_store_insert(s, r) == seq![s[0]] + (rest.take(idx - 1) + seq![r]
                + rest.skip(idx - 1)));
            assert(seq![s[0]] + (rest.take(idx - 1) + seq![r] + rest.skip(idx - 1)) =~= s.take(idx)
                + seq![r] + s.skip(idx));
        }
    }
}

impl SecretStore {
    pub open spec fn wf(self) -> bool {
        store_wf(self@)
    }

    /// An empty store.
    pub fn new() -> (r: SecretStore)
        ensures
            r@ == Seq::<RecordModel>::empty(),
            r.wf(),
    {
        let r = SecretStore { records: Vec::new() };
        proof {
            assert(r@ =~= Seq::<RecordModel>::empty());
        }
        r
    }

    /// The number of records held.
    pub fn len(&self) -> (n: usize)
        ensures
            n == self@.len(),
    {
        self.records.len()
    }

    /// The first position whose identifier does not precede `name`.
    fn insert_position(&self, name: &str) -> (idx: usize)
        ensures
            0 <= idx <= self@.len(),
            forall|k: int| 0 <= k < idx ==> lex_lt(self@[k].name, name@),
            idx < self@.len() ==> !lex_lt(self@[idx as int].name, name@),
    {
        let len = self.records.len();
        let mut idx: usize = 0;
        loop
            invariant
                0 <= idx <= len,
                len == self@.len(),
                len == self.records.len(),
                forall|k: int| 0 <= k < idx ==> lex_lt(self@[k].name, name@),
            ensures
                0 <= idx <= len,
                forall|k: int| 0 <= k < idx ==> lex_lt(self@[k].name, name@),
                idx < len ==> !lex_lt(self@[idx as int].name, name@),
            decreases len - idx,
        {
            if idx == len {
                break;
            }
            if str_lt(self.records[idx].name.as_str(), name) {
                proof {
                    assert(self@[idx as int].name == self.records@[idx as int].name@);
                }
                idx = idx + 1;
            } else {
                proof {
                    assert(self@[idx as int].name == self.records@[idx as int].name@);
                }
                break;
            }
        }
        idx
    }

    /// Inserts `record`, keeping the store ordered; a record already held
    /// under the same identifier is replaced (a later fetch overwrites an
    /// earlier one).
    pub fn insert(&mut self, record: SecretRecord)
        requires
            old(self).wf(),
            record.wf(),
        ensures
            final(self)@ == spec_store_insert(old(self)@, record@),
            final(self).wf(),
    {
        let ghost s0 = self@;
        let idx = self.insert_position(record.name.as_str());
        let mut replace = false;
        if idx < self.records.len() {
            if !str_lt(record.name.as_str(), self.records[idx].name.as_str()) {
                replace = true;
            }
        }
        proof {
            if replace {
                // neither name precedes the other, so they are equal
                if s0[idx as int].name != record@.name {
                    lemma_lex_lt_connected(s0[idx as int].name, record@.name);
                }
                assert(s0[idx as int].name == record@.name);
            } else if idx < s0.len() {
                assert(s0[idx as int].name != record@.name) by {
                    lemma_lex_lt_irrefl(record@.name);
                }
            }
            lemma_store_insert_at(s0, record@, idx as int);
            lemma_store_insert_wf(s0, record@);
        }
        if replace {
            self.records.remove(idx);
            self.records.insert(idx, record);
            proof {
                assert(self@ =~= s0.take(idx as int) + seq![record@] + s0.skip(idx as int + 1));
            }
        } else {
            self.records.insert(idx, record);
            proof {
                assert(self@ =~= s0.take(idx as int) + seq![record@] + s0.skip(idx as int));
            }
        }
    }
}

/// The store a sequence of named records assembles into: each inserted in
/// turn, later records overwriting earlier ones of the same identifier.
pub open spec fn spec_store_of(models: Seq<RecordModel>) -> Seq<RecordModel>
    decreases models.len(),
{
    if models.len() == 0 {
        Seq::empty()
    } else {
        spec_store_insert(spec_store_of(models.drop_last()), models.last())
    }
}

} // verus!
