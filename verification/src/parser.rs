//! JSON text, read and written back by `serde_json`.

use vstd::prelude::*;

verus! {

/// What `serde_json` makes of a text: `Ok` with the compact rendering of the
/// value it reads from it, or `Err` with the message of the error it reports.
pub uninterp spec fn json_outcome(text: Seq<char>) -> Result<Seq<char>, Seq<char>>;

/// The mathematical value of a parse result.
pub open spec fn outcome_view(r: Result<String, String>) -> Result<Seq<char>, Seq<char>> {
    match r {
        Ok(text) => Ok(text@),
        Err(message) => Err(message@),
    }
}

/// Reads `json` with `serde_json::from_str` into a `serde_json::Value`.
///
/// Trusted, not proved: the result is `json_outcome` of the text. On success
/// it is the value's `Display` rendering, which is compact; on failure it is
/// the `Display` rendering of the `serde_json::Error`, which names what was
/// expected and the line and column. Both depend on the text alone. Nesting
/// deeper than the parser's fixed limit is an error, not a crash.
#[verifier::external_body]
pub fn parse_json(json: &str) -> (r: Result<String, String>)
    ensures
        outcome_view(r) == json_outcome(json@),
{
    match serde_json::from_str::<serde_json::Value>(json) {
        Ok(value) => Ok(value.to_string()),
        Err(error) => Err(error.to_string()),
    }
}

} // verus!
