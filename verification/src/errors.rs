//! The error taxonomy: what can go wrong when fetching and parsing one
//! secret, when aggregating many, and when a search finds nothing.

use vstd::prelude::*;
use vstd::string::*;

verus! {

/// The shape of a fetch-time error.
pub enum FetchErrorModel {
    PayloadNotTextual,
    PayloadNotParseable,
    PayloadNotAnObject,
    FetchFailed(Seq<char>),
}

/// What fetching and parsing one secret can fail with: the store returned no
/// textual payload, the text was not valid JSON, the JSON was not an object
/// at the top level, or the remote call itself failed (with its cause as
/// text). All are terminal; none is retried.
#[derive(Debug)]
pub enum FetchError {
    PayloadNotTextual,
    PayloadNotParseable,
    PayloadNotAnObject,
    FetchFailed(String),
}

impl View for FetchError {
    type V = FetchErrorModel;

    open spec fn view(&self) -> FetchErrorModel {
        match self {
            FetchError::PayloadNotTextual => FetchErrorModel::PayloadNotTextual,
            FetchError::PayloadNotParseable => FetchErrorModel::PayloadNotParseable,
            FetchError::PayloadNotAnObject => FetchErrorModel::PayloadNotAnObject,
            FetchError::FetchFailed(cause) => FetchErrorModel::FetchFailed(cause@),
        }
    }
}

/// The message text of a fetch-time error.
pub open spec fn spec_fetch_error_message(e: FetchErrorModel) -> Seq<char> {
    match e {
        FetchErrorModel::PayloadNotTextual => "Secret does not contain a string value"@,
        FetchErrorModel::PayloadNotParseable => "Secret value is not valid JSON"@,
        FetchErrorModel::PayloadNotAnObject => (
        "Secret value is not a JSON object with key-value pairs"@),
        FetchErrorModel::FetchFailed(cause) => cause,
    }
}

impl FetchError {
    /// The user-facing message for this error.
    pub fn message(&self) -> (r: String)
        ensures
            r@ == spec_fetch_error_message(self@),
    {
        match self {
            FetchError::PayloadNotTextual => "Secret does not contain a string value".to_owned(),
            FetchError::PayloadNotParseable => "Secret value is not valid JSON".to_owned(),
            FetchError::PayloadNotAnObject => (
            "Secret value is not a JSON object with key-value pairs".to_owned()),
            FetchError::FetchFailed(cause) => cause.clone(),
        }
    }
}

/// The shape of an aggregation failure: the failing identifier and its error.
pub struct AggregateErrorModel {
    pub identifier: Seq<char>,
    pub error: FetchErrorModel,
}

/// What aggregating many secrets fails with: the first identifier whose
/// fetch or parse failed, and that failure. The whole aggregate operation
/// fails with it; there is no partial success.
#[derive(Debug)]
pub struct AggregateError {
    pub identifier: String,
    pub error: FetchError,
}

impl View for AggregateError {
    type V = AggregateErrorModel;

    open spec fn view(&self) -> AggregateErrorModel {
        AggregateErrorModel { identifier: self.identifier@, error: self.error@ }
    }
}

/// The message text of an aggregation failure.
pub open spec fn spec_aggregate_error_message(e: AggregateErrorModel) -> Seq<char> {
    "Failed to fetch secret '"@ + e.identifier + "': "@ + spec_fetch_error_message(e.error)
}

impl AggregateError {
    /// The user-facing message for this failure, naming the identifier.
    pub fn message(&self) -> (r: String)
        ensures
            r@ == spec_aggregate_error_message(self@),
    {
        let mut s = "Failed to fetch secret '".to_owned();
        s.append(self.identifier.as_str());
        s.append("': ");
        let m = self.error.message();
        s.append(m.as_str());
        s
    }
}

/// What a search that accumulates no match fails with: the pattern, so the
/// caller can report a clear "nothing found" message.
#[derive(Debug)]
pub struct NoMatches {
    pub pattern: String,
}

/// The message text of an empty search result.
pub open spec fn spec_no_matches_message(pattern: Seq<char>) -> Seq<char> {
    "No secrets or keys found matching pattern '"@ + pattern + "'"@
}

impl NoMatches {
    /// The user-facing message for an empty search result, naming the pattern.
    pub fn message(&self) -> (r: String)
        ensures
            r@ == spec_no_matches_message(self.pattern@),
    {
        let mut s = "No secrets or keys found matching pattern '".to_owned();
        s.append(self.pattern.as_str());
        s.append("'");
        s
    }
}

} // verus!
