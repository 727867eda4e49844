use vstd::prelude::*;

verus! {

/// A name for whether `serde_json::from_str` reads `text` as one JSON
/// document (`Ok`) or refuses it (`Err`); the grammar is serde_json's.
pub uninterp spec fn spec_parses_as_json(text: Seq<char>) -> bool;

/// A name for the text `serde_json::to_string_pretty` writes for the
/// document `serde_json::from_str` reads from `text` (two-space indent,
/// keys in the order a `Value` map keeps them).
pub uninterp spec fn spec_pretty_json(text: Seq<char>) -> Seq<char>;

/// `serde_json::to_string_pretty` of the `Value` that `serde_json::from_str`
/// reads from `text`, `None` when the text is not JSON. Printing a `Value`
/// cannot fail (its map keys are strings and it writes into memory), so
/// the result is `Some` exactly when the text parses.
#[verifier::external_body]
fn pretty_print_json(text: &str) -> (r: Option<String>)
    ensures
        r.is_some() == spec_parses_as_json(text@),
        r.is_some() ==> r.unwrap()@ == spec_pretty_json(text@),
{
    serde_json::from_str::<serde_json::Value>(text).ok().and_then(|v| serde_json::to_string_pretty(&v).ok())
}

/// Text pasted from the clipboard into a body: pretty-printed when the
/// body holds JSON and the text parses as JSON, else unchanged.
pub fn format_pasted(text: String, json_body: bool) -> (r: String)
    ensures
        !json_body ==> r@ == text@,
        json_body && !spec_parses_as_json(text@) ==> r@ == text@,
        json_body && spec_parses_as_json(text@) ==> r@ == spec_pretty_json(text@),
{
    if !json_body {
        return text;
    }
    match pretty_print_json(text.as_str()) {
        Some(p) => p,
        None => text,
    }
}

} // verus!
