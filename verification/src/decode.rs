//! Decoding of one wire record: a JSON object carrying a `response` text
//! field. A line that fails to decode is reported as `None` and skipped by
//! the caller; it never aborts the stream.

use vstd::prelude::*;

verus! {

/// The `response` text carried by one wire line, if the line is a JSON
/// object with a string `response` field; `None` for a malformed line.
pub uninterp spec fn decoded_response(line: Seq<u8>) -> Option<Seq<char>>;

/// Relies on serde_json::from_slice and serde_json::Value: parses the line
/// as JSON and extracts the string under the "response" key of the decoded
/// object. The result is a function of the line's bytes alone.
#[verifier::external_body]
pub(crate) fn decode_line(line: &[u8]) -> (r: Option<String>)
    ensures
        r.deep_view() == decoded_response(line@),
{
    match serde_json::from_slice::<serde_json::Value>(line) {
        Ok(serde_json::Value::Object(fields)) => match fields.get("response") {
            Some(serde_json::Value::String(text)) => Some(text.clone()),
            _ => None,
        },
        _ => None,
    }
}

/// The fragments that survive decoding `lines` in order: each decoded
/// `response` field is kept, each malformed line is skipped.
pub open spec fn decoded_fragments(lines: Seq<Seq<u8>>) -> Seq<Seq<char>>
    decreases lines.len(),
{
    if lines.len() == 0 {
        Seq::empty()
    } else {
        let rest = decoded_fragments(lines.drop_last());
        match decoded_response(lines.last()) {
            Some(frag) => rest.push(frag),
            None => rest,
        }
    }
}

/// A malformed line in the middle of a valid stream is contained at the
/// line level: the fragments delivered are exactly those of the stream
/// without it, so every later valid line is still delivered.
pub proof fn lemma_malformed_line_skipped(before: Seq<Seq<u8>>, bad: Seq<u8>, after: Seq<Seq<u8>>)
    requires
        decoded_response(bad) is None,
    ensures
        decoded_fragments(before + seq![bad] + after) == decoded_fragments(before + after),
    decreases after.len(),
{
    if after.len() == 0 {
        assert(before + seq![bad] + after =~= before + seq![bad]);
        assert((before + seq![bad]).drop_last() =~= before);
        assert((before + seq![bad]).last() == bad);
        assert(before + after =~= before);
    } else {
        let shorter = after.drop_last();
        let last_line = after.last();
        lemma_malformed_line_skipped(before, bad, shorter);
        assert((before + seq![bad] + after).drop_last() =~= before + seq![bad] + shorter);
        assert((before + seq![bad] + after).last() == last_line);
        assert((before + after).drop_last() =~= before + shorter);
        assert((before + after).last() == last_line);
    }
}

} // verus!
