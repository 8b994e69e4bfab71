//! The JSON operations of the library, made with `serde_json`.
use vstd::prelude::*;
use crate::text::split_on;
use crate::text::split_chars;
use crate::text::string_of;

verus! {

#[verifier::external_type_specification]
#[verifier::external_body]
pub struct ExJsonError(serde_json::Error);

/// The compact text of the member named `key` of the JSON object `json`, as
/// `serde_json` parses and renders it; `None` when `json` is no object or
/// has no such member.
pub uninterp spec fn json_member_text(json: Seq<char>, key: Seq<char>) -> Option<Seq<char>>;

/// The compact text of the element at `index` of the JSON array `json`, as
/// `serde_json` parses and renders it; `None` when `json` is no array or is
/// shorter.
pub uninterp spec fn json_element_text(json: Seq<char>, index: usize) -> Option<Seq<char>>;

/// The text a JSON document stands for: the contents of a string, the
/// compact rendering of anything else; `None` when `json` does not parse.
pub uninterp spec fn json_leaf_text(json: Seq<char>) -> Option<Seq<char>>;

/// The pretty (two-space indented) rendering `serde_json` gives a document;
/// `None` when it does not parse.
pub uninterp spec fn json_pretty_text(json: Seq<char>) -> Option<Seq<char>>;

/// Whether `serde_json` parses the text as a document.
pub uninterp spec fn json_document(text: Seq<char>) -> bool;

/// Whether `serde_json` parses the text as a number.
pub uninterp spec fn json_number(text: Seq<char>) -> bool;

/// Parses `json` with `serde_json::from_str` and, when it is an object,
/// renders its member `key` with `Value::to_string`. The result is named
/// `json_member_text`.
#[verifier::external_body]
fn json_member(json: &str, key: &str) -> (r: Option<String>)
    ensures
        r matches Some(c) ==> json_member_text(json@, key@) == Some(c@),
        r is None ==> json_member_text(json@, key@) is None,
{
    match serde_json::from_str::<serde_json::Value>(json) {
        Ok(serde_json::Value::Object(map)) => map.get(key).map(|v| v.to_string()),
        _ => None,
    }
}

/// Parses `json` with `serde_json::from_str` and, when it is an array,
/// renders its element at `index` with `Value::to_string`. The result is
/// named `json_element_text`.
#[verifier::external_body]
fn json_element(json: &str, index: usize) -> (r: Option<String>)
    ensures
        r matches Some(c) ==> json_element_text(json@, index) == Some(c@),
        r is None ==> json_element_text(json@, index) is None,
{
    match serde_json::from_str::<serde_json::Value>(json) {
        Ok(serde_json::Value::Array(items)) => items.get(index).map(|v| v.to_string()),
        _ => None,
    }
}

/// Whether every character of `s` is an ASCII digit, and there is one.
pub open spec fn all_digits(s: Seq<char>) -> bool {
    s.len() > 0 && forall|i: int| 0 <= i < s.len() ==> '0' <= #[trigger] s[i] <= '9'
}

/// The number written by the decimal digits `s`.
pub open spec fn digits_value(s: Seq<char>) -> int
    decreases s.len(),
{
    if s.len() == 0 {
        0
    } else {
        digits_value(s.drop_last()) * 10 + (s.last() as int - '0' as int)
    }
}

/// The digits of an index segment: a leading `+` is allowed.
pub open spec fn index_digits(s: Seq<char>) -> Seq<char> {
    if s.len() > 0 && s[0] == '+' {
        s.drop_first()
    } else {
        s
    }
}

/// The array index a path segment names, read as `usize` is read from
/// text: an optional `+`, then decimal digits whose value fits.
pub open spec fn segment_index(s: Seq<char>) -> Option<usize> {
    let d = index_digits(s);
    if all_digits(d) && digits_value(d) <= usize::MAX {
        Some(digits_value(d) as usize)
    } else {
        None
    }
}

/// The child a path segment selects: the member of that name of an object,
/// else the element of an array at the index the segment spells.
pub open spec fn json_child_text(json: Seq<char>, segment: Seq<char>) -> Option<Seq<char>> {
    match json_member_text(json, segment) {
        Some(c) => Some(c),
        None => match segment_index(segment) {
            Some(i) => json_element_text(json, i),
            None => None,
        },
    }
}

proof fn lemma_digits_prefix(s: Seq<char>, j: int)
    requires
        0 <= j <= s.len(),
        forall|i: int| 0 <= i < s.len() ==> '0' <= #[trigger] s[i] <= '9',
    ensures
        0 <= digits_value(s.take(j)) <= digits_value(s),
    decreases s.len() - j,
{
    if j < s.len() {
        lemma_digits_prefix(s, j + 1);
        assert(s.take(j + 1).drop_last() =~= s.take(j));
    } else {
        assert(s.take(j) =~= s);
        lemma_digits_nonneg(s);
    }
}

proof fn lemma_digits_nonneg(s: Seq<char>)
    requires
        forall|i: int| 0 <= i < s.len() ==> '0' <= #[trigger] s[i] <= '9',
    ensures
        digits_value(s) >= 0,
    decreases s.len(),
{
    if s.len() > 0 {
        lemma_digits_nonneg(s.drop_last());
    }
}

/// Reads a path segment as an array index, as `str::parse::<usize>` does.
pub fn parse_index(segment: &[char]) -> (r: Option<usize>)
    ensures
        r == segment_index(segment@),
{
    let n = segment.len();
    let mut start: usize = 0;
    if n > 0 && segment[0] == '+' {
        start = 1;
    }
    let ghost d = index_digits(segment@);
    assert(d =~= segment@.skip(start as int));
    if start >= n {
        return None;
    }
    let mut value: usize = 0;
    let mut k: usize = start;
    while k < n
        invariant
            start <= k <= n,
            n == segment@.len(),
            d == index_digits(segment@),
            d =~= segment@.skip(start as int),
            forall|i: int| 0 <= i < k - start ==> '0' <= #[trigger] d[i] <= '9',
            value == digits_value(d.take(k - start)),
        decreases n - k,
    {
        let c = segment[k];
        if !('0' <= c && c <= '9') {
            assert(d[k - start] == c);
            return None;
        }
        let digit: usize = (c as u32 - '0' as u32) as usize;
        assert(d.take(k - start + 1).drop_last() =~= d.take(k - start));
        assert(d.take(k - start + 1).last() == c);
        if value > (usize::MAX - digit) / 10 {
            proof {
                assert(forall|i: int| 0 <= i < k - start + 1 ==> '0' <= #[trigger] d[i] <= '9');
                let m = usize::MAX as int;
                assert(value * 10 + digit > m) by (nonlinear_arith)
                    requires
                        value > (m - digit) / 10,
                        0 <= digit <= 9,
                        m > 9,
                ;
                if all_digits(d) {
                    lemma_digits_prefix(d, k - start + 1);
                }
            }
            return None;
        }
        value = value * 10 + digit;
        k = k + 1;
    }
    assert(d.take(k - start) =~= d);
    Some(value)
}

/// Selects the child that `segment` names in the document `json`: the member
/// of an object, else the element of an array when the segment is an index.
fn json_child(json: &str, segment: &[char]) -> (r: Option<String>)
    ensures
        r matches Some(c) ==> json_child_text(json@, segment@) == Some(c@),
        r is None ==> json_child_text(json@, segment@) is None,
{
    let key = string_of(segment);
    match json_member(json, key.as_str()) {
        Some(c) => Some(c),
        None => match parse_index(segment) {
            Some(i) => json_element(json, i),
            None => None,
        },
    }
}

/// Parses `json` with `serde_json::from_str`; returns the contents of a
/// string, or the compact rendering of any other value. The result is named
/// `json_leaf_text`.
#[verifier::external_body]
fn json_leaf(json: &str) -> (r: Option<String>)
    ensures
        r matches Some(c) ==> json_leaf_text(json@) == Some(c@),
        r is None ==> json_leaf_text(json@) is None,
{
    let value: serde_json::Value = serde_json::from_str(json).ok()?;
    Some(
        match value {
            serde_json::Value::String(text) => text,
            other => other.to_string(),
        },
    )
}

/// Parses `text` with `serde_json::from_str` and renders it with
/// `serde_json::to_string_pretty`. The result is named `json_pretty_text`.
#[verifier::external_body]
pub(crate) fn pretty_print(text: &str) -> (r: Result<String, serde_json::Error>)
    ensures
        r matches Ok(p) ==> json_pretty_text(text@) == Some(p@),
        r is Err ==> json_pretty_text(text@) is None,
{
    let value: serde_json::Value = serde_json::from_str(text)?;
    serde_json::to_string_pretty(&value)
}

/// Whether `serde_json::from_str` parses `text` as a `serde_json::Value`.
#[verifier::external_body]
pub(crate) fn parses_as_document(text: &str) -> (r: bool)
    ensures
        r == json_document(text@),
{
    serde_json::from_str::<serde_json::Value>(text).is_ok()
}

/// Whether `serde_json::from_str` parses `text` as a `serde_json::Number`.
#[verifier::external_body]
pub(crate) fn parses_as_number(text: &str) -> (r: bool)
    ensures
        r == json_number(text@),
{
    serde_json::from_str::<serde_json::Number>(text).is_ok()
}

/// Follows the path segments through a document and renders what they reach.
pub open spec fn json_walk(json: Seq<char>, segments: Seq<Seq<char>>) -> Option<Seq<char>>
    decreases segments.len(),
{
    if segments.len() == 0 {
        json_leaf_text(json)
    } else {
        match json_child_text(json, segments[0]) {
            Some(child) => json_walk(child, segments.drop_first()),
            None => None,
        }
    }
}

/// The value at a dot-separated `path` in the JSON document `json`.
pub open spec fn json_path_value(json: Seq<char>, path: Seq<char>) -> Option<Seq<char>> {
    json_walk(json, split_on(path, '.'))
}

/// Looks up a dot-separated path (`profile.id`, `items.0`) in a JSON document.
pub fn resolve_json_path(json: &str, path: &[char]) -> (r: Option<String>)
    ensures
        r matches Some(v) ==> json_path_value(json@, path@) == Some(v@),
        r is None ==> json_path_value(json@, path@) is None,
{
    let segments = split_chars(path, '.');
    let mut current = json.to_owned();
    let mut i: usize = 0;
    assert(crate::text::views(segments@).skip(0) =~= crate::text::views(segments@));
    while i < segments.len()
        invariant
            i <= segments.len(),
            json_walk(current@, crate::text::views(segments@).skip(i as int)) == json_path_value(
                json@,
                path@,
            ),
        decreases segments.len() - i,
    {
        let segment = segments[i].as_slice();
        proof {
            let rest = crate::text::views(segments@).skip(i as int);
            assert(rest[0] == segment@);
            assert(rest.drop_first() =~= crate::text::views(segments@).skip(i + 1));
        }
        match json_child(current.as_str(), segment) {
            Some(child) => {
                current = child;
            },
            None => {
                return None;
            },
        }
        i = i + 1;
    }
    proof {
        assert(crate::text::views(segments@).skip(i as int).len() == 0);
    }
    json_leaf(current.as_str())
}

} // verus!
