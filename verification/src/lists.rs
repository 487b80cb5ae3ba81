//! JSON integer lists sent in form fields, and the checks applied to them.
use vstd::prelude::*;
use crate::error::{rule, is_rule, ServerError};

verus! {

/// What `serde_json::from_str::<Vec<i64>>` gives back for `text`: the integers of a JSON
/// array, or nothing when `text` is not a JSON array of `i64` values.
pub uninterp spec fn json_int_array(text: Seq<char>) -> Option<Seq<i64>>;

/// Calls `serde_json::from_str::<Vec<i64>>`; its result is named by `json_int_array`.
#[verifier::external_body]
fn parse_int_array(text: &str) -> (r: Option<Vec<i64>>)
    ensures
        r.is_some() == json_int_array(text@).is_some(),
        r.is_some() ==> r.unwrap()@ == json_int_array(text@).unwrap(),
{
    serde_json::from_str::<Vec<i64>>(text).ok()
}

/// True when no value occurs twice in `s`.
pub open spec fn distinct(s: Seq<i64>) -> bool {
    forall|i: int, j: int| 0 <= i < j < s.len() ==> s[i] != s[j]
}

/// True when every value of `s` lies in `lo..=hi`.
pub open spec fn all_within(s: Seq<i64>, lo: int, hi: int) -> bool {
    forall|i: int| 0 <= i < s.len() ==> lo <= #[trigger] s[i] <= hi
}

/// Decides whether the values of `v` are pairwise different.
pub fn is_distinct(v: &Vec<i64>) -> (r: bool)
    ensures
        r == distinct(v@),
{
    let mut i: usize = 0;
    while i < v.len()
        invariant
            i <= v@.len(),
            forall|a: int, b: int| 0 <= a < b < v@.len() && a < i ==> v@[a] != v@[b],
        decreases v@.len() - i,
    {
        let mut j = i + 1;
        while j < v.len()
            invariant
                i < v@.len(),
                i + 1 <= j <= v@.len(),
                forall|a: int, b: int| 0 <= a < b < v@.len() && a < i ==> v@[a] != v@[b],
                forall|b: int| i < b < j ==> v@[i as int] != v@[b],
            decreases v@.len() - j,
        {
            if v[i] == v[j] {
                return false;
            }
            j = j + 1;
        }
        i = i + 1;
    }
    true
}

/// Decides whether every value of `v` lies in `lo..=hi`.
pub fn is_within(v: &Vec<i64>, lo: i64, hi: i64) -> (r: bool)
    ensures
        r == all_within(v@, lo as int, hi as int),
{
    let mut i: usize = 0;
    while i < v.len()
        invariant
            i <= v@.len(),
            forall|k: int| 0 <= k < i ==> lo <= #[trigger] v@[k] <= hi,
        decreases v@.len() - i,
    {
        if v[i] < lo || v[i] > hi {
            return false;
        }
        i = i + 1;
    }
    true
}

/// A JSON integer array of the text, refused with `code` when it is not one.
pub fn int_array(text: &str, code: &str) -> (r: Result<Vec<i64>, ServerError>)
    ensures
        match json_int_array(text@) {
            Some(v) => r is Ok && r->Ok_0@ == v,
            None => r is Err && is_rule(r->Err_0, code@),
        },
{
    match parse_int_array(text) {
        Some(v) => Ok(v),
        None => Err(rule(code)),
    }
}

} // verus!

verus! {

/// A JSON integer list of 1 to 100 entries from form field `key`.
pub open spec fn short_list_of(req: crate::forms::Request, key: Seq<char>) -> Option<Seq<i64>> {
    match json_int_array(req.text_of(key)) {
        Some(v) => if 1 <= v.len() <= 100 { Some(v) } else { None },
        None => None,
    }
}

/// Reads a JSON integer list of 1 to 100 entries from field `key`, refused with
/// `InvalidValue` otherwise.
pub fn short_list(req: &crate::forms::Request, key: &str) -> (r: Result<Vec<i64>, ServerError>)
    ensures
        match short_list_of(*req, key@) {
            Some(v) => r is Ok && r->Ok_0@ == v,
            None => r is Err && is_rule(r->Err_0, "InvalidValue"@),
        },
{
    let v = match parse_int_array(req.text(key)) {
        Some(v) => v,
        None => { return Err(rule("InvalidValue")); },
    };
    if v.len() == 0 || v.len() > 100 {
        return Err(rule("InvalidValue"));
    }
    Ok(v)
}

} // verus!

verus! {

/// What `serde_json::from_str::<Vec<String>>` gives back for `text`: the strings of a
/// JSON array, or nothing when `text` is not a JSON array of strings.
pub uninterp spec fn json_text_array(text: Seq<char>) -> Option<Seq<Seq<char>>>;

/// Calls `serde_json::from_str::<Vec<String>>`; its result is named by `json_text_array`.
#[verifier::external_body]
fn parse_text_array(text: &str) -> (r: Option<Vec<String>>)
    ensures
        r.is_some() == json_text_array(text@).is_some(),
        r.is_some() ==> r.unwrap()@.map_values(|s: String| s@) == json_text_array(text@).unwrap(),
{
    serde_json::from_str::<Vec<String>>(text).ok()
}

/// Reads a JSON list of strings, refused with the rule `code` when `text` is none.
pub fn text_array(text: &str, code: &str) -> (r: Result<Vec<String>, ServerError>)
    ensures
        match json_text_array(text@) {
            Some(v) => r is Ok && r->Ok_0@.map_values(|s: String| s@) == v,
            None => r is Err && is_rule(r->Err_0, code@),
        },
{
    match parse_text_array(text) {
        Some(v) => Ok(v),
        None => Err(rule(code)),
    }
}

} // verus!
