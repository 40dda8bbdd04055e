//! Assembling the settled results of a concurrent fan-out of fetches into
//! one store, all-or-nothing: one failure fails the whole aggregate, and no
//! partial store is ever returned.

use vstd::prelude::*;
use crate::errors::{AggregateError, FetchError, FetchErrorModel};
use crate::parse::{json_payload_of, parse_secret, PayloadModel};
use crate::record::{spec_store_of, RecordModel, SecretStore};

verus! {

/// What one dispatched fetch settled with: a textual payload, a response
/// without textual content, or a remote failure with its cause as text.
pub enum FetchResponse {
    Payload(String),
    NoText,
    Failed(String),
}

/// The response carried a textual payload that parses as a JSON object.
pub open spec fn response_ok(resp: FetchResponse) -> bool {
    &&& resp is Payload
    &&& json_payload_of(resp->Payload_0@) is Object
}

/// Every settled fetch is ok.
pub open spec fn all_ok(results: Seq<(String, FetchResponse)>) -> bool {
    forall|i: int| 0 <= i < results.len() ==> response_ok(#[trigger] results[i].1)
}

/// The error a settled response classifies to, when it is not ok.
pub open spec fn spec_response_error(resp: FetchResponse) -> FetchErrorModel {
    match resp {
        FetchResponse::Failed(cause) => FetchErrorModel::FetchFailed(cause@),
        FetchResponse::NoText => FetchErrorModel::PayloadNotTextual,
        FetchResponse::Payload(p) => if json_payload_of(p@) is Invalid {
            FetchErrorModel::PayloadNotParseable
        } else {
            FetchErrorModel::PayloadNotAnObject
        },
    }
}

/// The position of the first fetch that is not ok.
pub open spec fn first_bad(results: Seq<(String, FetchResponse)>) -> int
    decreases results.len(),
{
    if results.len() == 0 {
        0
    } else if !response_ok(results[0].1) {
        0
    } else {
        1 + first_bad(results.skip(1))
    }
}

/// The records the settled results parse to, in dispatch order (meaningful
/// when every fetch is ok).
pub open spec fn spec_record_models(results: Seq<(String, FetchResponse)>) -> Seq<RecordModel> {
    results.map_values(
        |p: (String, FetchResponse)|
            RecordModel { name: p.0@, entries: json_payload_of(p.1->Payload_0@)->Object_0 },
    )
}

proof fn lemma_first_bad_at(results: Seq<(String, FetchResponse)>, i: int)
    requires
        0 <= i < results.len(),
        forall|k: int| 0 <= k < i ==> response_ok(#[trigger] results[k].1),
        !response_ok(results[i].1),
    ensures
        first_bad(results) == i,
    decreases i,
{
    if i > 0 {
        assert(forall|k: int|
            0 <= k < i - 1 ==> #[trigger] results.skip(1)[k].1 == results[k + 1].1);
        assert(results.skip(1)[i - 1] == results[i]);
        lemma_first_bad_at(results.skip(1), i - 1);
    }
}

/// Merges the settled results of one fan-out into a store. All-or-nothing:
/// the call succeeds exactly when every fetch returned a textual payload
/// that parsed as a JSON object, and then the store holds exactly those
/// records, in ascending identifier order, a later duplicate identifier
/// overwriting an earlier one. On any failure the whole aggregate fails with
/// the first failing identifier and its error, and no store is returned.
pub fn assemble_store(results: Vec<(String, FetchResponse)>) -> (r: Result<
    SecretStore,
    AggregateError,
>)
    ensures
        r is Ok <==> all_ok(results@),
        r is Ok ==> r->Ok_0.wf() && r->Ok_0@ == spec_store_of(spec_record_models(results@)),
        r is Err ==> {
            let j = first_bad(results@);
            &&& 0 <= j < results@.len()
            &&& !response_ok(results@[j].1)
            &&& forall|k: int| 0 <= k < j ==> response_ok(#[trigger] results@[k].1)
            &&& r->Err_0@.identifier == results@[j].0@
            &&& r->Err_0@.error == spec_response_error(results@[j].1)
        },
{
    let mut store = SecretStore::new();
    let n = results.len();
    let mut i: usize = 0;
    proof {
        assert(results@.take(0int).map_values(
            |p: (String, FetchResponse)|
                RecordModel { name: p.0@, entries: json_payload_of(p.1->Payload_0@)->Object_0 },
        ) =~= Seq::<RecordModel>::empty());
    }
    while i < n
        invariant
            0 <= i <= n,
            n == results@.len(),
            forall|k: int| 0 <= k < i ==> response_ok(#[trigger] results@[k].1),
            store.wf(),
            store@ == spec_store_of(spec_record_models(results@.take(i as int))),
        decreases n - i,
    {
        let id = results[i].0.clone();
        match &results[i].1 {
            FetchResponse::Failed(cause) => {
                proof {
                    lemma_first_bad_at(results@, i as int);
                    assert(!all_ok(results@));
                }
                return Err(
                    AggregateError { identifier: id, error: FetchError::FetchFailed(cause.clone()) },
                );
            },
            FetchResponse::NoText => {
                proof {
                    lemma_first_bad_at(results@, i as int);
                    assert(!all_ok(results@));
                }
                return Err(
                    AggregateError { identifier: id, error: FetchError::PayloadNotTextual },
                );
            },
            FetchResponse::Payload(p) => {
                match parse_secret(id, p.as_str()) {
                    Ok(rec) => {
                        proof {
                            let m1 = spec_record_models(results@.take(i + 1int));
                            assert(m1.drop_last() =~= spec_record_models(
                                results@.take(i as int),
                            ));
                            assert(results@.take(i + 1int)[i as int] == results@[i as int]);
                            assert(m1.last() == rec@);
                        }
                        store.insert(rec);
                    },
                    Err(e) => {
                        proof {
                            lemma_first_bad_at(results@, i as int);
                            assert(!all_ok(results@));
                        }
                        let id_again = results[i].0.clone();
                        return Err(AggregateError { identifier: id_again, error: e });
                    },
                }
            },
        }
        i = i + 1;
    }
    proof {
        assert(results@.take(n as int) =~= results@);
    }
    Ok(store)
}

} // verus!
