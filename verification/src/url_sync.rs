//! URL and query-parameter synchronization, path-variable detection, and
//! bulk key-value text.
use vstd::prelude::*;
use crate::http::{HeaderEntry, QueryParam};
use crate::resolver::join_seq;
use crate::template::{close_from, find_close, lemma_close_from};
use crate::resolver::strs;
use crate::text::{
    chars_of, extend_range, find_char, first_index_of, is_alphanumeric, is_prefix_seq, lines_seq,
    seq_eq, slice_range, split_chars, split_lines, split_on, starts_with, string_of,
    string_of_range, trim_bounds, trim_seq, unicode_alphanumeric, views, white_space,
    trim_start_seq, trim_end_seq, nl_index, char_index, lemma_nl_index_is, strip_cr, is_ascii_text, digit_char,
};

verus! {

/// What `form_urlencoded::byte_serialize` renders for the UTF-8 bytes of a text.
pub uninterp spec fn form_encoded(text: Seq<char>) -> Seq<char>;

/// The name of the first pair that `form_urlencoded::parse` yields for the
/// UTF-8 bytes of a text, if it yields any.
pub uninterp spec fn form_first_name(text: Seq<char>) -> Option<Seq<char>>;

/// A hexadecimal digit, capitals for ten to fifteen.
pub open spec fn upper_hex_digit(d: nat) -> char {
    if d < 10 {
        digit_char(d)
    } else {
        ((('A' as u32) + (d - 10)) as u32) as char
    }
}

/// What the form serializer gives an ASCII character: letters, digits and
/// `*-._` unchanged, a space as `+`, anything else as `%` and two capital
/// hexadecimal digits.
pub open spec fn form_ascii_char(c: char) -> Seq<char> {
    if ('a' <= c <= 'z') || ('A' <= c <= 'Z') || ('0' <= c <= '9') || c == '*' || c == '-' || c == '.' || c
        == '_' {
        seq![c]
    } else if c == ' ' {
        seq!['+']
    } else {
        seq!['%', upper_hex_digit((c as nat) / 16), upper_hex_digit((c as nat) % 16)]
    }
}

/// The form serialization of an ASCII text, character by character.
pub open spec fn form_encoded_ascii(s: Seq<char>) -> Seq<char>
    decreases s.len(),
{
    if s.len() == 0 {
        Seq::empty()
    } else {
        form_encoded_ascii(s.drop_last()) + form_ascii_char(s.last())
    }
}

/// Calls `form_urlencoded::byte_serialize` on the bytes of `input`, collecting
/// the pieces. The result is named `form_encoded`; each byte gives at least
/// one character, so it is empty exactly when the input is. On ASCII text,
/// where each character is one byte, the crate's source shows the pieces
/// character by character (`form_encoded_ascii`).
#[verifier::external_body]
fn byte_serialize(input: &str) -> (r: String)
    ensures
        r@ == form_encoded(input@),
        (r@.len() == 0) == (input@.len() == 0),
        is_ascii_text(input@) ==> r@ == form_encoded_ascii(input@),
{
    url::form_urlencoded::byte_serialize(input.as_bytes()).collect()
}

/// A text that form decoding leaves as it is: not empty, with no `%`, `+`,
/// `&` or `=`.
pub open spec fn plain_form_word(s: Seq<char>) -> bool {
    s.len() > 0 && forall|i: int| 0 <= i < s.len() ==> #[trigger] s[i] != '%' && s[i] != '+' && s[i] != '&'
        && s[i] != '='
}

/// Calls `form_urlencoded::parse` on the bytes of `input` and keeps the name
/// of the first pair; the result is named `form_first_name`. As the crate's
/// source shows, empty input yields no pair, and a plain word is one pair
/// whose name is the word itself (no `&` to split on, no `=`, nothing to
/// decode, and its bytes are already UTF-8).
#[verifier::external_body]
fn first_form_name(input: &str) -> (r: Option<String>)
    ensures
        match r {
            Some(k) => form_first_name(input@) == Some(k@),
            None => form_first_name(input@) is None,
        },
        input@.len() == 0 ==> r is None,
        plain_form_word(input@) ==> r is Some && r->0@ == input@,
{
    url::form_urlencoded::parse(input.as_bytes()).map(|(k, _)| k.into_owned()).next()
}

/// The decoded form of a query component: the first name that form decoding
/// yields, or the text itself when it yields none.
pub open spec fn form_decoded(text: Seq<char>) -> Seq<char> {
    match form_first_name(text) {
        Some(k) => k,
        None => text,
    }
}

/// A character that query text carries as it is: an ASCII letter or digit,
/// or one of `*-._`.
pub open spec fn unreserved(c: char) -> bool {
    ('a' <= c <= 'z') || ('A' <= c <= 'Z') || ('0' <= c <= '9') || c == '*' || c == '-' || c == '.' || c == '_'
}

/// A word of such characters, not empty.
pub open spec fn plain_word(s: Seq<char>) -> bool {
    s.len() > 0 && forall|i: int| 0 <= i < s.len() ==> unreserved(#[trigger] s[i])
}

/// A query piece written plainly: a plain word, or two joined by one `=`.
pub open spec fn plain_piece(p: Seq<char>) -> bool {
    ||| plain_word(p)
    ||| exists|e: int|
        0 < e < p.len() && p[e] == '=' && #[trigger] plain_word(p.subrange(0, e)) && plain_word(
            p.subrange(e + 1, p.len() as int),
        )
}

/// A query whose `&`-separated pieces are all written plainly.
pub open spec fn plain_query(q: Seq<char>) -> bool {
    forall|k: int| 0 <= k < split_on(q, '&').len() ==> plain_piece(#[trigger] split_on(q, '&')[k])
}

/// The parameter a plain piece stands for, read without decoding.
pub open spec fn plain_pair(p: Seq<char>) -> ParamView {
    match first_index_of(p, '=') {
        Some(e) => ParamView {
            key: p.subrange(0, e),
            value: p.subrange(e + 1, p.len() as int),
            enabled: true,
            description: None,
        },
        None => ParamView { key: p, value: Seq::empty(), enabled: true, description: None },
    }
}

pub open spec fn plain_params(pieces: Seq<Seq<char>>) -> Seq<ParamView> {
    pieces.map_values(|p: Seq<char>| plain_pair(p))
}

/// Model of a query parameter.
pub ghost struct ParamView {
    pub key: Seq<char>,
    pub value: Seq<char>,
    pub enabled: bool,
    pub description: Option<Seq<char>>,
}

pub open spec fn param_view(p: QueryParam) -> ParamView {
    ParamView {
        key: p.key@,
        value: p.value@,
        enabled: p.enabled,
        description: match p.description {
            Some(d) => Some(d@),
            None => None,
        },
    }
}

pub open spec fn param_views(ps: Seq<QueryParam>) -> Seq<ParamView> {
    ps.map_values(|p: QueryParam| param_view(p))
}

/// The parameter written `key=value` (or just `key`) in a query string.
pub open spec fn pair_param(piece: Seq<char>) -> ParamView {
    match first_index_of(piece, '=') {
        Some(e) => ParamView {
            key: form_decoded(piece.subrange(0, e)),
            value: form_decoded(piece.subrange(e + 1, piece.len() as int)),
            enabled: true,
            description: None,
        },
        None => ParamView {
            key: form_decoded(piece),
            value: form_decoded(Seq::empty()),
            enabled: true,
            description: None,
        },
    }
}

/// Parameters of the `&`-separated pieces, empty pieces skipped.
pub open spec fn params_of(pieces: Seq<Seq<char>>) -> Seq<ParamView>
    decreases pieces.len(),
{
    if pieces.len() == 0 {
        Seq::empty()
    } else if pieces.last().len() == 0 {
        params_of(pieces.drop_last())
    } else {
        params_of(pieces.drop_last()).push(pair_param(pieces.last()))
    }
}

/// The parameters of a query string.
pub open spec fn query_params(q: Seq<char>) -> Seq<ParamView> {
    if q.len() == 0 {
        Seq::empty()
    } else {
        params_of(split_on(q, '&'))
    }
}

/// How an enabled parameter is written in a query: encoded key, then `=`
/// and the encoded value unless that is empty.
pub open spec fn param_part(p: ParamView) -> Seq<char> {
    if form_encoded(p.value).len() == 0 {
        form_encoded(p.key)
    } else {
        form_encoded(p.key) + "="@ + form_encoded(p.value)
    }
}

/// Query parts of the enabled parameters, in order.
pub open spec fn enabled_parts(ps: Seq<ParamView>) -> Seq<Seq<char>>
    decreases ps.len(),
{
    if ps.len() == 0 {
        Seq::empty()
    } else if ps.last().enabled {
        enabled_parts(ps.drop_last()).push(param_part(ps.last()))
    } else {
        enabled_parts(ps.drop_last())
    }
}

/// The URL from a base and parameters: the base alone when no parameter is
/// enabled, else the base, `?` (or `&` when the base has a `?`), and the
/// parts joined with `&`.
pub open spec fn built_url(base: Seq<char>, ps: Seq<ParamView>) -> Seq<char> {
    let parts = enabled_parts(ps);
    if parts.len() == 0 {
        base
    } else {
        base + (if base.contains('?') {
            "&"@
        } else {
            "?"@
        }) + join_seq(parts, "&"@)
    }
}

/// The enabled parameters' keys and values are all ASCII.
pub open spec fn ascii_params(ps: Seq<ParamView>) -> bool {
    forall|i: int| 0 <= i < ps.len() && (#[trigger] ps[i]).enabled ==> is_ascii_text(ps[i].key) && is_ascii_text(
        ps[i].value,
    )
}

/// `param_part` for ASCII text, where the serializer's output is spelled out.
pub open spec fn param_part_ascii(p: ParamView) -> Seq<char> {
    if form_encoded_ascii(p.value).len() == 0 {
        form_encoded_ascii(p.key)
    } else {
        form_encoded_ascii(p.key) + "="@ + form_encoded_ascii(p.value)
    }
}

pub open spec fn enabled_parts_ascii(ps: Seq<ParamView>) -> Seq<Seq<char>>
    decreases ps.len(),
{
    if ps.len() == 0 {
        Seq::empty()
    } else if ps.last().enabled {
        enabled_parts_ascii(ps.drop_last()).push(param_part_ascii(ps.last()))
    } else {
        enabled_parts_ascii(ps.drop_last())
    }
}

/// `built_url` for parameters of ASCII text.
pub open spec fn built_url_ascii(base: Seq<char>, ps: Seq<ParamView>) -> Seq<char> {
    let parts = enabled_parts_ascii(ps);
    if parts.len() == 0 {
        base
    } else {
        base + (if base.contains('?') {
            "&"@
        } else {
            "?"@
        }) + join_seq(parts, "&"@)
    }
}

/// Whether a character stays at the ends of a `:name` path variable.
pub open spec fn word_char(c: char) -> bool {
    unicode_alphanumeric(c) || c == '_'
}

pub open spec fn trim_word_start(s: Seq<char>) -> Seq<char>
    decreases s.len(),
{
    if s.len() > 0 && !word_char(s[0]) {
        trim_word_start(s.drop_first())
    } else {
        s
    }
}

pub open spec fn trim_word_end(s: Seq<char>) -> Seq<char>
    decreases s.len(),
{
    if s.len() > 0 && !word_char(s.last()) {
        trim_word_end(s.drop_last())
    } else {
        s
    }
}

/// A name without the characters around it that cannot belong to it.
pub open spec fn trim_word(s: Seq<char>) -> Seq<char> {
    trim_word_end(trim_word_start(s))
}

/// Adds `name` to `vars` unless it is empty or already there.
pub open spec fn add_var(vars: Seq<Seq<char>>, name: Seq<char>) -> Seq<Seq<char>> {
    if name.len() > 0 && !vars.contains(name) {
        vars.push(name)
    } else {
        vars
    }
}

/// Variables written `:name` as path segments, in order.
pub open spec fn colon_vars(segments: Seq<Seq<char>>, vars: Seq<Seq<char>>) -> Seq<Seq<char>>
    decreases segments.len(),
{
    if segments.len() == 0 {
        vars
    } else {
        let seg = segments[0];
        let next = if seg.len() > 0 && seg[0] == ':' {
            add_var(vars, trim_word(seg.drop_first()))
        } else {
            vars
        };
        colon_vars(segments.drop_first(), next)
    }
}

/// Variables written `{{name}}` from index `i` on; an opening `{{` without
/// closing braces ends the scan.
pub open spec fn brace_vars(s: Seq<char>, i: int, vars: Seq<Seq<char>>) -> Seq<Seq<char>>
    decreases s.len() - i,
{
    if i < 0 || i + 1 >= s.len() {
        vars
    } else if s[i] == '{' && s[i + 1] == '{' {
        let c = close_from(s, i + 2);
        if c + 1 >= s.len() {
            vars
        } else {
            proof {
                lemma_close_from(s, i + 2);
            }
            brace_vars(s, c + 2, add_var(vars, trim_seq(s.subrange(i + 2, c))))
        }
    } else {
        brace_vars(s, i + 1, vars)
    }
}

/// The path variables of a URL: `:name` segments first, then `{{name}}`
/// references, each name once.
pub open spec fn path_variables(url: Seq<char>) -> Seq<Seq<char>> {
    brace_vars(url, 0, colon_vars(split_on(url, '/'), Seq::empty()))
}

/// The key and value of one bulk-edit line, when it holds one.
pub open spec fn bulk_entry(line: Seq<char>) -> Option<(Seq<char>, Seq<char>)> {
    let t = trim_seq(line);
    if t.len() == 0 || t[0] == '#' || is_prefix_seq("//"@, t) {
        None
    } else {
        match first_index_of(t, ':') {
            Some(c) => Some(
                (trim_seq(t.subrange(0, c)), trim_seq(t.subrange(c + 1, t.len() as int))),
            ),
            None => match first_index_of(t, '=') {
                Some(e) => Some(
                    (trim_seq(t.subrange(0, e)), trim_seq(t.subrange(e + 1, t.len() as int))),
                ),
                None => Some((t, Seq::empty())),
            },
        }
    }
}

/// Entries of bulk-edit lines, in order.
pub open spec fn bulk_entries(lines: Seq<Seq<char>>) -> Seq<(Seq<char>, Seq<char>)>
    decreases lines.len(),
{
    if lines.len() == 0 {
        Seq::empty()
    } else {
        match bulk_entry(lines.last()) {
            Some(e) => bulk_entries(lines.drop_last()).push(e),
            None => bulk_entries(lines.drop_last()),
        }
    }
}

/// Lines `key: value` for the pairs with a key, trimmed.
pub open spec fn bulk_lines(items: Seq<(Seq<char>, Seq<char>)>) -> Seq<Seq<char>>
    decreases items.len(),
{
    if items.len() == 0 {
        Seq::empty()
    } else {
        let key = trim_seq(items.last().0);
        let rest = bulk_lines(items.drop_last());
        if key.len() > 0 {
            rest.push(key + ": "@ + trim_seq(items.last().1))
        } else {
            rest
        }
    }
}

pub open spec fn pair_views(v: Seq<(String, String)>) -> Seq<(Seq<char>, Seq<char>)> {
    v.map_values(|p: (String, String)| (p.0@, p.1@))
}

/// Converts between a raw URL and a table of query parameters.
#[derive(Debug, Clone, Default)]
pub struct UrlSyncEngine;

impl UrlSyncEngine {
    /// Percent-encodes text for a query, as form encoding does.
    pub fn percent_encode(input: &str) -> (r: String)
        ensures
            r@ == form_encoded(input@),
            (r@.len() == 0) == (input@.len() == 0),
            is_ascii_text(input@) ==> r@ == form_encoded_ascii(input@),
    {
        byte_serialize(input)
    }

    /// Decodes a query component: the first name form decoding yields, or
    /// the text unchanged.
    pub fn percent_decode(input: &str) -> (r: String)
        ensures
            r@ == form_decoded(input@),
            plain_form_word(input@) ==> r@ == input@,
            input@.len() == 0 ==> r@ == input@,
    {
        match first_form_name(input) {
            Some(k) => k,
            None => input.to_owned(),
        }
    }

    fn param_from_piece(piece: &[char]) -> (r: QueryParam)
        requires
            piece@.len() > 0,
        ensures
            param_view(r) == pair_param(piece@),
            plain_piece(piece@) ==> param_view(r) == plain_pair(piece@),
    {
        proof {
            lemma_plain_piece(piece@);
        }
        match find_char(piece, '=') {
            Some(e) => {
                let key = string_of_range(piece, 0, e);
                let value = string_of_range(piece, e + 1, piece.len());
                QueryParam {
                    key: UrlSyncEngine::percent_decode(key.as_str()),
                    value: UrlSyncEngine::percent_decode(value.as_str()),
                    enabled: true,
                    description: None,
                }
            },
            None => {
                let key = string_of(piece);
                let empty = String::new();
                QueryParam {
                    key: UrlSyncEngine::percent_decode(key.as_str()),
                    value: UrlSyncEngine::percent_decode(empty.as_str()),
                    enabled: true,
                    description: None,
                }
            },
        }
    }

    /// Parses a query string (without `?`) into enabled parameters.
    pub fn parse_query_string(query_str: &str) -> (r: Vec<QueryParam>)
        ensures
            param_views(r@) == query_params(query_str@),
            plain_query(query_str@) && query_str@.len() > 0 ==> param_views(r@) == plain_params(
                split_on(query_str@, '&'),
            ),
    {
        let mut params: Vec<QueryParam> = Vec::new();
        let q = chars_of(query_str);
        if q.len() == 0 {
            assert(param_views(params@) =~= Seq::<ParamView>::empty());
            return params;
        }
        let pieces = split_chars(&q, '&');
        let ghost ps = views(pieces@);
        let mut i: usize = 0;
        assert(ps.take(0) =~= Seq::<Seq<char>>::empty());
        assert(param_views(params@) =~= Seq::<ParamView>::empty());
        while i < pieces.len()
            invariant
                ps == views(pieces@),
                ps == split_on(q@, '&'),
                ps.len() == pieces@.len(),
                i <= pieces.len(),
                param_views(params@) == params_of(ps.take(i as int)),
                q@ == query_str@,
                plain_query(q@) ==> param_views(params@) == plain_params(ps.take(i as int)),
            decreases pieces.len() - i,
        {
            let piece = &pieces[i];
            proof {
                if plain_query(q@) {
                    assert(plain_piece(ps[i as int]));
                    assert(ps[i as int].len() > 0) by {
                        if ps[i as int].len() == 0 {
                            let e = choose|e: int|
                                0 < e < ps[i as int].len() && ps[i as int][e] == '=' && #[trigger] plain_word(
                                    ps[i as int].subrange(0, e),
                                ) && plain_word(ps[i as int].subrange(e + 1, ps[i as int].len() as int));
                        }
                    }
                    assert(plain_params(ps.take(i + 1)) =~= plain_params(ps.take(i as int)).push(
                        plain_pair(ps[i as int]),
                    ));
                }
            }
            proof {
                assert(ps.take(i + 1).drop_last() =~= ps.take(i as int));
                assert(ps.take(i + 1).last() == piece@);
            }
            if piece.len() > 0 {
                let p = UrlSyncEngine::param_from_piece(piece);
                let ghost before = params@;
                params.push(p);
                proof {
                    assert(param_views(params@) =~= param_views(before).push(param_view(p)));
                }
            }
            i = i + 1;
        }
        assert(ps.take(i as int) =~= ps);
        params
    }

    /// Splits a URL at its first `?` into the base and the parameters.
    pub fn parse_url(raw_url: &str) -> (r: (String, Vec<QueryParam>))
        ensures
            match first_index_of(raw_url@, '?') {
                Some(i) => r.0@ == raw_url@.subrange(0, i) && param_views(r.1@) == query_params(
                    raw_url@.subrange(i + 1, raw_url@.len() as int),
                ),
                None => r.0@ == raw_url@ && r.1@.len() == 0,
            },
            first_index_of(raw_url@, '?') matches Some(i) ==> (plain_query(
                raw_url@.subrange(i + 1, raw_url@.len() as int),
            ) && i + 1 < raw_url@.len() ==> param_views(r.1@) == plain_params(
                split_on(raw_url@.subrange(i + 1, raw_url@.len() as int), '&'),
            )),
    {
        let s = chars_of(raw_url);
        match find_char(&s, '?') {
            Some(i) => {
                let base = string_of_range(&s, 0, i);
                let query = string_of_range(&s, i + 1, s.len());
                let params = UrlSyncEngine::parse_query_string(query.as_str());
                (base, params)
            },
            None => (raw_url.to_owned(), Vec::new()),
        }
    }

    /// Rebuilds a URL from a base and the enabled parameters.
    pub fn build_url(base_url: &str, params: &[QueryParam]) -> (r: String)
        ensures
            r@ == built_url(base_url@, param_views(params@)),
            ascii_params(param_views(params@)) ==> r@ == built_url_ascii(base_url@, param_views(params@)),
    {
        let ghost ps = param_views(params@);
        let mut parts: Vec<String> = Vec::new();
        let mut i: usize = 0;
        assert(ps.take(0) =~= Seq::<ParamView>::empty());
        while i < params.len()
            invariant
                ps == param_views(params@),
                ps.len() == params@.len(),
                i <= params.len(),
                parts@.map_values(|p: String| p@) == enabled_parts(ps.take(i as int)),
                ascii_params(ps) ==> enabled_parts(ps.take(i as int)) == enabled_parts_ascii(ps.take(i as int)),
            decreases params.len() - i,
        {
            let p = &params[i];
            proof {
                assert(ps.take(i + 1).drop_last() =~= ps.take(i as int));
                assert(ps.take(i + 1).last() == param_view(*p));
                assert(ps[i as int] == param_view(*p));
            }
            if p.enabled {
                let key = UrlSyncEngine::percent_encode(p.key.as_str());
                let value = UrlSyncEngine::percent_encode(p.value.as_str());
                proof {
                    if ascii_params(ps) {
                        assert(is_ascii_text(ps[i as int].key));
                        assert(param_part(ps[i as int]) == param_part_ascii(ps[i as int]));
                    }
                }
                let part = if value.as_str().is_empty() {
                    key
                } else {
                    let mut s = key;
                    s.push_str("=");
                    s.push_str(value.as_str());
                    s
                };
                let ghost before = parts@;
                parts.push(part);
                proof {
                    assert(parts@.map_values(|p: String| p@) =~= before.map_values(|p: String| p@).push(
                        part@,
                    ));
                }
            }
            i = i + 1;
        }
        assert(ps.take(i as int) =~= ps);
        assert(ascii_params(ps) ==> enabled_parts(ps) == enabled_parts_ascii(ps));
        if parts.len() == 0 {
            return base_url.to_owned();
        }
        let base = chars_of(base_url);
        let mut out = base_url.to_owned();
        match find_char(&base, '?') {
            Some(_) => {
                out.push_str("&");
            },
            None => {
                out.push_str("?");
            },
        }
        let ghost head = out@;
        let mut k: usize = 0;
        let ghost pv = parts@.map_values(|p: String| p@);
        assert(pv.take(0) =~= Seq::<Seq<char>>::empty());
        while k < parts.len()
            invariant
                pv == parts@.map_values(|p: String| p@),
                pv.len() == parts@.len(),
                k <= parts.len(),
                out@ == head + join_seq(pv.take(k as int), "&"@),
            decreases parts.len() - k,
        {
            let ghost before = out@;
            if k > 0 {
                out.push_str("&");
            }
            out.push_str(parts[k].as_str());
            proof {
                let t = pv.take(k + 1);
                assert(t.drop_last() =~= pv.take(k as int));
                assert(t.last() == parts@[k as int]@);
                if k == 0 {
                    assert(join_seq(t, "&"@) == t[0]);
                    assert(out@ =~= head + t[0]);
                } else {
                    assert(out@ =~= before + "&"@ + t.last());
                }
            }
            k = k + 1;
        }
        proof {
            assert(pv.take(k as int) =~= pv);
            if first_index_of(base@, '?') is Some {
                assert(base@.contains('?'));
            } else {
                assert(!base@.contains('?'));
            }
        }
        out
    }
}


/// Bounds of `s[start..end]` without the non-word characters at its ends.
fn trim_word_bounds(s: &[char], start: usize, end: usize) -> (r: (usize, usize))
    requires
        start <= end <= s.len(),
    ensures
        start <= r.0 <= r.1 <= end,
        s@.subrange(r.0 as int, r.1 as int) == trim_word(s@.subrange(start as int, end as int)),
{
    let mut a = start;
    while a < end && !(is_alphanumeric(s[a]) || s[a] == '_')
        invariant
            start <= a <= end <= s.len(),
            trim_word_start(s@.subrange(start as int, end as int)) == trim_word_start(
                s@.subrange(a as int, end as int),
            ),
        decreases end - a,
    {
        assert(s@.subrange(a as int, end as int).drop_first() =~= s@.subrange(a + 1, end as int));
        a = a + 1;
    }
    let mut b = end;
    while b > a && !(is_alphanumeric(s[b - 1]) || s[b - 1] == '_')
        invariant
            start <= a <= b <= end <= s.len(),
            trim_word_end(s@.subrange(a as int, end as int)) == trim_word_end(
                s@.subrange(a as int, b as int),
            ),
        decreases b - a,
    {
        assert(s@.subrange(a as int, b as int).drop_last() =~= s@.subrange(a as int, b - 1));
        b = b - 1;
    }
    (a, b)
}

/// Adds `name` to `vars` unless it is empty or already there.
fn add_variable(vars: &mut Vec<String>, name: &[char])
    ensures
        strs(final(vars)@) == add_var(strs(old(vars)@), name@),
{
    if name.len() == 0 {
        return ;
    }
    let mut i: usize = 0;
    while i < vars.len()
        invariant
            i <= vars.len(),
            forall|k: int| 0 <= k < i ==> strs(vars@)[k] != name@,
        decreases vars.len() - i,
    {
        let v = chars_of(vars[i].as_str());
        if seq_eq(&v, name) {
            proof {
                assert(strs(vars@)[i as int] == name@);
                assert(strs(vars@).contains(name@));
            }
            return ;
        }
        i = i + 1;
    }
    let ghost before = vars@;
    vars.push(string_of(name));
    proof {
        assert(strs(vars@) =~= strs(before).push(name@));
    }
}

/// The entry of one bulk-edit line.
fn bulk_line(line: &[char]) -> (r: Option<(String, String)>)
    ensures
        match r {
            Some(e) => bulk_entry(line@) == Some((e.0@, e.1@)),
            None => bulk_entry(line@) is None,
        },
{
    let slashes = chars_of("//");
    assert(line@.subrange(0, line@.len() as int) =~= line@);
    let (a, b) = trim_bounds(line, 0, line.len());
    let t = slice_range(line, a, b);
    if t.len() == 0 || t[0] == '#' || starts_with(&t, &slashes) {
        return None;
    }
    match find_char(&t, ':') {
        Some(c) => {
            let (ka, kb) = trim_bounds(&t, 0, c);
            let (va, vb) = trim_bounds(&t, c + 1, t.len());
            Some((string_of_range(&t, ka, kb), string_of_range(&t, va, vb)))
        },
        None => match find_char(&t, '=') {
            Some(e) => {
                let (ka, kb) = trim_bounds(&t, 0, e);
                let (va, vb) = trim_bounds(&t, e + 1, t.len());
                Some((string_of_range(&t, ka, kb), string_of_range(&t, va, vb)))
            },
            None => Some((string_of(&t), String::new())),
        },
    }
}

impl UrlSyncEngine {
    /// Path variables of a URL: `:name` segments, then `{{name}}`
    /// references, each name once, in order of appearance.
    pub fn detect_path_variables(url_str: &str) -> (r: Vec<String>)
        ensures
            strs(r@) == path_variables(url_str@),
    {
        let s = chars_of(url_str);
        let segments = split_chars(&s, '/');
        let ghost segs = views(segments@);
        let mut vars: Vec<String> = Vec::new();
        let mut i: usize = 0;
        assert(segs.skip(0) =~= segs);
        assert(strs(vars@) =~= Seq::<Seq<char>>::empty());
        while i < segments.len()
            invariant
                segs == views(segments@),
                segs == split_on(s@, '/'),
                segs.len() == segments@.len(),
                i <= segments.len(),
                colon_vars(segs, Seq::empty()) == colon_vars(segs.skip(i as int), strs(vars@)),
            decreases segments.len() - i,
        {
            let seg = &segments[i];
            proof {
                assert(segs.skip(i as int)[0] == seg@);
                assert(segs.skip(i as int).drop_first() =~= segs.skip(i + 1));
            }
            if seg.len() > 0 && seg[0] == ':' {
                let (a, b) = trim_word_bounds(seg, 1, seg.len());
                let name = slice_range(seg, a, b);
                proof {
                    assert(seg@.subrange(1, seg@.len() as int) =~= seg@.drop_first());
                }
                add_variable(&mut vars, &name);
            }
            i = i + 1;
        }
        proof {
            assert(segs.skip(i as int) =~= Seq::<Seq<char>>::empty());
        }
        let ghost first = strs(vars@);
        let mut k: usize = 0;
        loop
            invariant
                k <= s.len(),
                brace_vars(s@, 0, first) == brace_vars(s@, k as int, strs(vars@)),
            ensures
                brace_vars(s@, 0, first) == strs(vars@),
            decreases s.len() - k,
        {
            if s.len() - k <= 1 {
                break ;
            }
            if s[k] == '{' && s[k + 1] == '{' {
                let c = find_close(&s, k + 2);
                proof {
                    lemma_close_from(s@, k + 2);
                }
                if c >= s.len() || s.len() - c < 2 {
                    break ;
                }
                let (a, b) = trim_bounds(&s, k + 2, c);
                let name = slice_range(&s, a, b);
                add_variable(&mut vars, &name);
                k = c + 2;
            } else {
                k = k + 1;
            }
        }
        vars
    }

    /// Parses bulk-edit text: one `key: value` or `key=value` per line;
    /// blank lines and lines starting with `#` or `//` are skipped; a line
    /// with neither separator is a key with an empty value.
    pub fn parse_bulk_text(text: &str) -> (r: Vec<(String, String)>)
        ensures
            pair_views(r@) == bulk_entries(lines_seq(text@)),
    {
        let chars = chars_of(text);
        let lines = split_lines(&chars);
        let ghost lv = views(lines@);
        let mut entries: Vec<(String, String)> = Vec::new();
        let mut i: usize = 0;
        assert(lv.take(0) =~= Seq::<Seq<char>>::empty());
        assert(pair_views(entries@) =~= Seq::<(Seq<char>, Seq<char>)>::empty());
        while i < lines.len()
            invariant
                lv == views(lines@),
                lv == lines_seq(text@),
                lv.len() == lines@.len(),
                i <= lines.len(),
                pair_views(entries@) == bulk_entries(lv.take(i as int)),
            decreases lines.len() - i,
        {
            let line = &lines[i];
            proof {
                assert(lv.take(i + 1).drop_last() =~= lv.take(i as int));
                assert(lv.take(i + 1).last() == line@);
            }
            let entry = match bulk_line(line) {
                Some(e) => e,
                None => {
                    i = i + 1;
                    continue ;
                },
            };
            let ghost before = entries@;
            entries.push(entry);
            proof {
                assert(pair_views(entries@) =~= pair_views(before).push((entry.0@, entry.1@)));
            }
            i = i + 1;
        }
        assert(lv.take(i as int) =~= lv);
        entries
    }

    /// Writes pairs as bulk-edit text: `key: value` lines for the pairs with
    /// a key, trimmed, joined with line feeds.
    pub fn serialize_bulk_text(items: &Vec<(String, String)>) -> (r: String)
        ensures
            r@ == join_seq(bulk_lines(pair_views(items@)), "\n"@),
    {
        let ghost pv = pair_views(items@);
        let mut out = String::new();
        let mut first = true;
        let mut i: usize = 0;
        proof {
            reveal_strlit("\n");
        }
        assert(pv.take(0) =~= Seq::<(Seq<char>, Seq<char>)>::empty());
        while i < items.len()
            invariant
                pv == pair_views(items@),
                pv.len() == items@.len(),
                i <= items.len(),
                out@ == join_seq(bulk_lines(pv.take(i as int)), "\n"@),
                first == (bulk_lines(pv.take(i as int)).len() == 0),
                "\n"@ == seq!['\n'],
            decreases items.len() - i,
        {
            let key = crate::text::trim(items[i].0.as_str());
            let value = crate::text::trim(items[i].1.as_str());
            proof {
                assert(pv.take(i + 1).drop_last() =~= pv.take(i as int));
                assert(pv.take(i + 1).last() == (items@[i as int].0@, items@[i as int].1@));
            }
            if !key.as_str().is_empty() {
                let ghost before = out@;
                let ghost lines = bulk_lines(pv.take(i as int));
                if !first {
                    out.push('\n');
                }
                out.push_str(key.as_str());
                out.push_str(": ");
                out.push_str(value.as_str());
                proof {
                    let line = key@ + ": "@ + value@;
                    let all = lines.push(line);
                    assert(all.drop_last() =~= lines);
                    if first {
                        assert(out@ =~= line);
                    } else {
                        assert(out@ =~= before + "\n"@ + line);
                    }
                }
                first = false;
            }
            i = i + 1;
        }
        assert(pv.take(i as int) =~= pv);
        out
    }
}

/// Standard header presets for quick configuration.
pub struct HeaderPresets;

pub open spec fn header_is(
    h: HeaderEntry,
    name: Seq<char>,
    value: Seq<char>,
    description: Seq<char>,
) -> bool {
    &&& h.name@ == name
    &&& h.value@ == value
    &&& h.enabled
    &&& !h.is_secret
    &&& h.description matches Some(d) && d@ == description
}

fn preset(name: &str, value: &str, description: &str) -> (h: HeaderEntry)
    ensures
        header_is(h, name@, value@, description@),
{
    HeaderEntry {
        name: name.to_owned(),
        value: value.to_owned(),
        enabled: true,
        is_secret: false,
        description: Some(description.to_owned()),
    }
}

impl HeaderPresets {
    /// JSON body and JSON responses.
    pub fn json() -> (r: Vec<HeaderEntry>)
        ensures
            r@.len() == 2,
            header_is(r@[0], "Content-Type"@, "application/json"@, "Request body format"@),
            header_is(r@[1], "Accept"@, "application/json"@, "Expected response format"@),
    {
        vec![
            preset("Content-Type", "application/json", "Request body format"),
            preset("Accept", "application/json", "Expected response format"),
        ]
    }

    /// URL-encoded form body.
    pub fn form_urlencoded() -> (r: Vec<HeaderEntry>)
        ensures
            r@.len() == 1,
            header_is(
                r@[0],
                "Content-Type"@,
                "application/x-www-form-urlencoded"@,
                "URL-encoded form body"@,
            ),
    {
        vec![
            preset(
                "Content-Type",
                "application/x-www-form-urlencoded",
                "URL-encoded form body",
            ),
        ]
    }

    /// XML body and XML responses.
    pub fn xml() -> (r: Vec<HeaderEntry>)
        ensures
            r@.len() == 2,
            header_is(r@[0], "Content-Type"@, "application/xml"@, "XML payload format"@),
            header_is(r@[1], "Accept"@, "application/xml"@, "Expected XML response"@),
    {
        vec![
            preset("Content-Type", "application/xml", "XML payload format"),
            preset("Accept", "application/xml", "Expected XML response"),
        ]
    }
}


// ---------------------------------------------------------------------------
// Bulk text round trip
// ---------------------------------------------------------------------------

/// A pair that bulk text writes and reads back unchanged: a key that is not
/// empty, trimmed, free of `:` and line feeds and does not start a comment,
/// and a trimmed value free of line feeds.
pub open spec fn bulk_safe(k: Seq<char>, v: Seq<char>) -> bool {
    &&& k.len() > 0
    &&& trim_seq(k) == k
    &&& trim_seq(v) == v
    &&& k[0] != '#'
    &&& !is_prefix_seq("//"@, k)
    &&& forall|i: int| 0 <= i < k.len() ==> k[i] != ':' && k[i] != '\n'
    &&& forall|i: int| 0 <= i < v.len() ==> v[i] != '\n'
}

proof fn lemma_trim_start_len(s: Seq<char>)
    ensures
        trim_start_seq(s).len() <= s.len(),
        s.len() > 0 && white_space(s[0]) ==> trim_start_seq(s).len() < s.len(),
    decreases s.len(),
{
    if s.len() > 0 && white_space(s[0]) {
        lemma_trim_start_len(s.drop_first());
    }
}

proof fn lemma_trim_end_len(s: Seq<char>)
    ensures
        trim_end_seq(s).len() <= s.len(),
        s.len() > 0 && white_space(s.last()) ==> trim_end_seq(s).len() < s.len(),
    decreases s.len(),
{
    if s.len() > 0 && white_space(s.last()) {
        lemma_trim_end_len(s.drop_last());
    }
}

/// A trimmed text that is not empty starts and ends without white space.
proof fn lemma_trimmed_ends(s: Seq<char>)
    requires
        s.len() > 0,
        trim_seq(s) == s,
    ensures
        !white_space(s[0]),
        !white_space(s.last()),
{
    lemma_trim_start_len(s);
    lemma_trim_end_len(trim_start_seq(s));
    if !white_space(s[0]) {
        assert(trim_start_seq(s) == s);
        lemma_trim_end_len(s);
    }
}

/// A text without white space at either end is its own trim.
proof fn lemma_trim_fixed(s: Seq<char>)
    requires
        s.len() > 0,
        !white_space(s[0]),
        !white_space(s.last()),
    ensures
        trim_seq(s) == s,
{
    assert(trim_start_seq(s) == s);
}

/// The first `:` of `k + rest` is just past `k` when `k` holds none and
/// `rest` starts with one.
proof fn lemma_first_colon(k: Seq<char>, rest: Seq<char>)
    requires
        forall|i: int| 0 <= i < k.len() ==> k[i] != ':',
        rest.len() > 0,
        rest[0] == ':',
    ensures
        first_index_of(k + rest, ':') == Some(k.len() as int),
{
    let t = k + rest;
    assert(t[k.len() as int] == ':');
    let c = choose|i: int| 0 <= i < t.len() && t[i] == ':' && forall|j: int| 0 <= j < i ==> t[j] != ':';
    assert(0 <= c < t.len() && t[c] == ':' && forall|j: int| 0 <= j < c ==> t[j] != ':') by {
        assert(0 <= k.len() < t.len() && t[k.len() as int] == ':' && forall|j: int|
            0 <= j < k.len() ==> t[j] != ':');
    }
    if c < k.len() {
        assert(t[c] == k[c]);
    }
}

/// The trimmed line written for a safe pair: the line itself, or without
/// its final space when the value is empty.
#[verifier::spinoff_prover]
proof fn lemma_line_trim(k: Seq<char>, v: Seq<char>)
    requires
        bulk_safe(k, v),
    ensures
        trim_seq(k + ": "@ + v) == if v.len() > 0 {
            k + ": "@ + v
        } else {
            k + seq![':']
        },
{
    reveal_strlit(": ");
    let line = k + ": "@ + v;
    lemma_trimmed_ends(k);
    assert(line[0] == k[0]);
    if v.len() > 0 {
        lemma_trimmed_ends(v);
        assert(line.last() == v.last());
        lemma_trim_fixed(line);
    } else {
        let kc = k + seq![':'];
        assert(line =~= kc.push(' '));
        assert(trim_start_seq(line) == line);
        assert(line.drop_last() =~= kc);
        assert(trim_end_seq(line) == trim_end_seq(kc));
        assert(trim_end_seq(kc) == kc);
    }
}

/// What follows the first `:` of the trimmed line trims to the value.
#[verifier::spinoff_prover]
proof fn lemma_value_trim(v: Seq<char>)
    requires
        trim_seq(v) == v,
    ensures
        v.len() > 0 ==> trim_seq(seq![' '] + v) == v,
{
    if v.len() > 0 {
        lemma_trimmed_ends(v);
        let tail = seq![' '] + v;
        assert(tail.drop_first() =~= v);
        assert(trim_start_seq(tail) == trim_start_seq(v));
    }
}

/// Reading back the line written for a safe pair gives the pair.
#[verifier::spinoff_prover]
proof fn lemma_bulk_line_round_trip(k: Seq<char>, v: Seq<char>)
    requires
        bulk_safe(k, v),
    ensures
        bulk_entry(k + ": "@ + v) == Some((k, v)),
{
    reveal_strlit("//");
    lemma_line_trim(k, v);
    lemma_value_trim(v);
    let t = trim_seq(k + ": "@ + v);
    assert(t.len() > k.len() && t[k.len() as int] == ':') by {
        reveal_strlit(": ");
    }
    let rest = t.subrange(k.len() as int, t.len() as int);
    assert(t =~= k + rest) by {
        reveal_strlit(": ");
    }
    lemma_first_colon(k, rest);
    assert(t.subrange(0, k.len() as int) =~= k) by {
        reveal_strlit(": ");
    }
    let tail = t.subrange(k.len() + 1int, t.len() as int);
    assert(trim_seq(tail) == v) by {
        reveal_strlit(": ");
        if v.len() > 0 {
            assert(tail =~= seq![' '] + v);
        } else {
            assert(tail =~= Seq::<char>::empty());
        }
    }
    assert(t[0] == k[0]) by {
        reveal_strlit(": ");
    }
    assert(!is_prefix_seq("//"@, t)) by {
        reveal_strlit(": ");
        if is_prefix_seq("//"@, t) {
            assert(t.subrange(0, 2) == "//"@);
            if k.len() >= 2 {
                assert(k.subrange(0, 2) =~= t.subrange(0, 2));
                assert(is_prefix_seq("//"@, k));
            } else {
                assert(t[1] == ':');
                assert(t.subrange(0, 2)[1] == t[1]);
                assert("//"@[1] == '/');
            }
        }
    }
}

/// Joining with line feeds, seen from the front.
proof fn lemma_join_front(list: Seq<Seq<char>>)
    requires
        list.len() >= 2,
    ensures
        join_seq(list, "\n"@) == list[0] + "\n"@ + join_seq(list.drop_first(), "\n"@),
    decreases list.len(),
{
    let nl = "\n"@;
    if list.len() == 2 {
        assert(list.drop_first() =~= seq![list[1]]);
        assert(list.drop_last() =~= seq![list[0]]);
        assert(join_seq(seq![list[1]], nl) == list[1]);
        assert(join_seq(seq![list[0]], nl) == list[0]);
        assert(join_seq(list, nl) == join_seq(list.drop_last(), nl) + nl + list.last());
    } else {
        let dl = list.drop_last();
        lemma_join_front(dl);
        assert(dl.drop_first() =~= list.drop_first().drop_last());
        assert(list.drop_first().last() == list.last());
        assert(dl[0] == list[0]);
        let mid = join_seq(dl.drop_first(), nl);
        assert(join_seq(list.drop_first(), nl) == mid + nl + list.last());
        assert(join_seq(list, nl) == (list[0] + nl + mid) + nl + list.last());
        assert((list[0] + nl + mid) + nl + list.last() =~= list[0] + nl + (mid + nl + list.last()));
    }
}

/// Lines without line feeds that do not end in a carriage return and are
/// not empty, joined with line feeds, split back into themselves.
proof fn lemma_lines_of_join(list: Seq<Seq<char>>)
    requires
        forall|i: int| 0 <= i < list.len() ==> (#[trigger] list[i]).len() > 0 && list[i].last() != '\r'
            && forall|j: int| 0 <= j < list[i].len() ==> list[i][j] != '\n',
    ensures
        lines_seq(join_seq(list, "\n"@)) == list,
    decreases list.len(),
{
    reveal_strlit("\n");
    if list.len() == 0 {
    } else if list.len() == 1 {
        let s = list[0];
        lemma_nl_index_is(s, s.len() as int);
        assert(lines_seq(s) == seq![strip_cr(s)]);
        assert(seq![s] =~= list);
    } else {
        lemma_join_front(list);
        let head = list[0];
        let rest = join_seq(list.drop_first(), "\n"@);
        let s = head + "\n"@ + rest;
        assert(forall|j: int| 0 <= j < head.len() ==> s[j] == head[j]);
        assert(s[head.len() as int] == '\n');
        lemma_nl_index_is(s, head.len() as int);
        assert(s.subrange(0, head.len() as int) =~= head);
        assert(s.subrange(head.len() + 1int, s.len() as int) =~= rest);
        assert forall|i: int| 0 <= i < list.drop_first().len() implies (#[trigger] list.drop_first()[i]).len() > 0
            && list.drop_first()[i].last() != '\r' && forall|j: int|
            0 <= j < list.drop_first()[i].len() ==> list.drop_first()[i][j] != '\n' by {
            assert(list.drop_first()[i] == list[i + 1]);
        }
        lemma_lines_of_join(list.drop_first());
        assert(seq![head] + list.drop_first() =~= list);
    }
}

proof fn lemma_bulk_lines_shape(items: Seq<(Seq<char>, Seq<char>)>)
    requires
        forall|i: int| 0 <= i < items.len() ==> bulk_safe(#[trigger] items[i].0, items[i].1),
    ensures
        bulk_lines(items).len() == items.len(),
        forall|i: int| 0 <= i < items.len() ==> #[trigger] bulk_lines(items)[i] == items[i].0 + ": "@ + items[i].1,
    decreases items.len(),
{
    if items.len() > 0 {
        assert(bulk_safe(items.last().0, items.last().1));
        lemma_bulk_lines_shape(items.drop_last());
        assert forall|i: int| 0 <= i < items.len() implies #[trigger] bulk_lines(items)[i] == items[i].0 + ": "@ + items[i].1 by {
            if i < items.len() - 1 {
                assert(items.drop_last()[i] == items[i]);
            }
        }
    }
}

proof fn lemma_entries_of_lines(items: Seq<(Seq<char>, Seq<char>)>)
    requires
        forall|i: int| 0 <= i < items.len() ==> bulk_safe(#[trigger] items[i].0, items[i].1),
    ensures
        bulk_entries(bulk_lines(items)) == items,
    decreases items.len(),
{
    if items.len() > 0 {
        let last = items.last();
        assert(bulk_safe(last.0, last.1));
        assert forall|i: int| 0 <= i < items.drop_last().len() implies bulk_safe(
            #[trigger] items.drop_last()[i].0,
            items.drop_last()[i].1,
        ) by {
            assert(items.drop_last()[i] == items[i]);
        }
        lemma_entries_of_lines(items.drop_last());
        lemma_bulk_line_round_trip(last.0, last.1);
        let lines = bulk_lines(items);
        assert(lines.drop_last() == bulk_lines(items.drop_last()));
        assert(items.drop_last().push(last) =~= items);
    }
}

/// Writing safe pairs as bulk text and reading the text back gives the
/// same pairs, in order.
pub proof fn law_bulk_text_round_trip(items: Seq<(Seq<char>, Seq<char>)>)
    requires
        forall|i: int| 0 <= i < items.len() ==> bulk_safe(#[trigger] items[i].0, items[i].1),
    ensures
        bulk_entries(lines_seq(join_seq(bulk_lines(items), "\n"@))) == items,
{
    reveal_strlit(": ");
    lemma_bulk_lines_shape(items);
    let lines = bulk_lines(items);
    assert forall|i: int| 0 <= i < lines.len() implies (#[trigger] lines[i]).len() > 0 && lines[i].last()
        != '\r' && forall|j: int| 0 <= j < lines[i].len() ==> lines[i][j] != '\n' by {
        let (k, v) = items[i];
        assert(bulk_safe(k, v));
        assert(lines[i] == k + ": "@ + v);
        if v.len() > 0 {
            lemma_trimmed_ends(v);
            assert(lines[i].last() == v.last());
        }
        assert forall|j: int| 0 <= j < lines[i].len() implies lines[i][j] != '\n' by {
            if j < k.len() {
                assert(lines[i][j] == k[j]);
            } else if j >= k.len() + 2 {
                assert(lines[i][j] == v[j - k.len() - 2]);
            }
        }
    }
    lemma_lines_of_join(lines);
    lemma_entries_of_lines(items);
}

proof fn lemma_trim_start_shape(s: Seq<char>)
    ensures
        trim_start_seq(s).len() <= s.len(),
        trim_start_seq(s) =~= s.skip(s.len() - trim_start_seq(s).len()),
        trim_start_seq(s).len() > 0 ==> !white_space(trim_start_seq(s)[0]),
    decreases s.len(),
{
    if s.len() > 0 && white_space(s[0]) {
        lemma_trim_start_shape(s.drop_first());
        let t = trim_start_seq(s.drop_first());
        assert(s.drop_first().skip(s.drop_first().len() - t.len()) =~= s.skip(s.len() - t.len()));
    }
}

proof fn lemma_trim_end_shape(s: Seq<char>)
    ensures
        trim_end_seq(s).len() <= s.len(),
        trim_end_seq(s) =~= s.take(trim_end_seq(s).len() as int),
        trim_end_seq(s).len() > 0 ==> !white_space(trim_end_seq(s).last()),
    decreases s.len(),
{
    if s.len() > 0 && white_space(s.last()) {
        lemma_trim_end_shape(s.drop_last());
        let t = trim_end_seq(s.drop_last());
        assert(s.drop_last().take(t.len() as int) =~= s.take(t.len() as int));
    }
}

/// The trim of a text is a piece of it: the characters from some index on,
/// up to some later index.
proof fn lemma_trim_piece(s: Seq<char>) -> (ab: (int, int))
    ensures
        0 <= ab.0 <= ab.1 <= s.len(),
        trim_seq(s) =~= s.subrange(ab.0, ab.1),
{
    lemma_trim_start_shape(s);
    let ts = trim_start_seq(s);
    lemma_trim_end_shape(ts);
    let a = s.len() - ts.len();
    let b = a + trim_end_seq(ts).len();
    assert(trim_seq(s) =~= s.subrange(a, b));
    (a, b)
}

/// Trimming twice is trimming once.
proof fn lemma_trim_idempotent(s: Seq<char>)
    ensures
        trim_seq(trim_seq(s)) == trim_seq(s),
{
    lemma_trim_start_shape(s);
    let ts = trim_start_seq(s);
    lemma_trim_end_shape(ts);
    let t = trim_seq(s);
    if t.len() > 0 {
        assert(t[0] == ts[0]);
        lemma_trim_fixed(t);
    } else {
        assert(trim_start_seq(t) =~= t);
    }
}

/// What `first_index_of` gives: the first index holding `c`, if any.
proof fn lemma_first_index_of(s: Seq<char>, c: char)
    ensures
        first_index_of(s, c) matches Some(i) ==> 0 <= i < s.len() && s[i] == c && forall|j: int|
            0 <= j < i ==> s[j] != c,
        first_index_of(s, c) is None ==> forall|j: int| 0 <= j < s.len() ==> s[j] != c,
{
    crate::text::lemma_char_index(s, c);
    let k = char_index(s, c);
    if exists|i: int| 0 <= i < s.len() && s[i] == c {
        let w = choose|i: int| 0 <= i < s.len() && s[i] == c;
        assert(k <= w);
        assert(0 <= k < s.len() && s[k] == c && forall|j: int| 0 <= j < k ==> s[j] != c);
    }
}

/// No line that `str::lines` yields holds a line feed.
proof fn lemma_lines_without_feeds(s: Seq<char>)
    ensures
        forall|k: int, j: int|
            0 <= k < lines_seq(s).len() && 0 <= j < lines_seq(s)[k].len() ==> #[trigger] lines_seq(s)[k][j]
                != '\n',
    decreases s.len(),
{
    if s.len() > 0 {
        let i = nl_index(s);
        crate::text::lemma_nl_index(s);
        if i < s.len() {
            let rest = s.subrange(i + 1, s.len() as int);
            lemma_lines_without_feeds(rest);
            let head = strip_cr(s.subrange(0, i));
            assert forall|k: int, j: int|
                0 <= k < lines_seq(s).len() && 0 <= j < lines_seq(s)[k].len() implies #[trigger] lines_seq(s)[k][j]
                != '\n' by {
                if k == 0 {
                    assert(lines_seq(s)[0] == head);
                    assert(head[j] == s[j]);
                } else {
                    assert(lines_seq(s)[k] == lines_seq(rest)[k - 1]);
                }
            }
        } else {
            assert forall|k: int, j: int|
                0 <= k < lines_seq(s).len() && 0 <= j < lines_seq(s)[k].len() implies #[trigger] lines_seq(s)[k][j]
                != '\n' by {
                assert(lines_seq(s)[0] == strip_cr(s));
                assert(strip_cr(s)[j] == s[j]);
            }
        }
    }
}

/// Every entry read from lines is read from one of them.
proof fn lemma_entries_from_lines(lines: Seq<Seq<char>>)
    ensures
        forall|k: int| 0 <= k < bulk_entries(lines).len() ==> exists|j: int|
            0 <= j < lines.len() && bulk_entry(lines[j]) == Some(#[trigger] bulk_entries(lines)[k]),
    decreases lines.len(),
{
    if lines.len() > 0 {
        let init = lines.drop_last();
        lemma_entries_from_lines(init);
        assert forall|k: int| 0 <= k < bulk_entries(lines).len() implies exists|j: int|
            0 <= j < lines.len() && bulk_entry(lines[j]) == Some(#[trigger] bulk_entries(lines)[k]) by {
            if k < bulk_entries(init).len() {
                assert(bulk_entries(lines)[k] == bulk_entries(init)[k]);
                let j = choose|j: int| 0 <= j < init.len() && bulk_entry(init[j]) == Some(bulk_entries(init)[k]);
                assert(lines[j] == init[j]);
            } else {
                assert(bulk_entry(lines[lines.len() - 1]) == Some(bulk_entries(lines)[k]));
            }
        }
    }
}

/// A piece of a text without `c` holds no `c` either.
proof fn lemma_piece_without(s: Seq<char>, c: char, a: int, b: int)
    requires
        0 <= a <= b <= s.len(),
        forall|j: int| 0 <= j < s.len() ==> s[j] != c,
    ensures
        forall|j: int| 0 <= j < b - a ==> #[trigger] s.subrange(a, b)[j] != c,
{
    assert forall|j: int| 0 <= j < b - a implies #[trigger] s.subrange(a, b)[j] != c by {
        assert(s.subrange(a, b)[j] == s[a + j]);
    }
}

/// The key read from the front `x` of a trimmed line `t` (up to a `:` or
/// `=`): trimmed, and when not empty it starts as `t` does.
proof fn lemma_front_key(t: Seq<char>, c: int)
    requires
        0 <= c <= t.len(),
        t.len() > 0,
        !white_space(t[0]),
    ensures
        trim_seq(t.subrange(0, c)).len() > 0 ==> trim_seq(t.subrange(0, c))[0] == t[0] && (trim_seq(
            t.subrange(0, c),
        ).len() >= 2 ==> trim_seq(t.subrange(0, c))[1] == t[1]),
{
    let x = t.subrange(0, c);
    if x.len() > 0 {
        assert(x[0] == t[0]);
        assert(trim_start_seq(x) == x);
        lemma_trim_end_shape(x);
        let k = trim_seq(x);
        if k.len() > 0 {
            assert(k[0] == x[0]);
        }
        if k.len() >= 2 {
            assert(k[1] == x[1]);
            assert(x[1] == t[1]);
        }
    } else {
        assert(trim_start_seq(x) =~= x);
        assert(trim_end_seq(x) =~= x);
    }
}

/// An entry read from a line without line feeds, when its key is not
/// empty, is a pair that bulk text writes and reads back unchanged.
proof fn lemma_entry_safe(line: Seq<char>)
    requires
        forall|j: int| 0 <= j < line.len() ==> line[j] != '\n',
        bulk_entry(line) matches Some((k, v)) && k.len() > 0,
    ensures
        bulk_safe((bulk_entry(line)->0).0, (bulk_entry(line)->0).1),
{
    reveal_strlit("//");
    let t = trim_seq(line);
    let (a, b) = lemma_trim_piece(line);
    lemma_piece_without(line, '\n', a, b);
    lemma_trim_idempotent(line);
    lemma_trimmed_ends(t);
    lemma_first_index_of(t, ':');
    lemma_first_index_of(t, '=');
    let (k, v) = bulk_entry(line)->0;
    let cut: int = match first_index_of(t, ':') {
        Some(c) => c,
        None => match first_index_of(t, '=') {
            Some(e) => e,
            None => t.len() as int,
        },
    };
    assert(forall|j: int| 0 <= j < cut ==> t[j] != ':');
    let x = t.subrange(0, cut);
    lemma_piece_without(t, '\n', 0, cut);
    if cut < t.len() {
        assert(k == trim_seq(x));
        assert(v == trim_seq(t.subrange(cut + 1, t.len() as int)));
        let (p, q) = lemma_trim_piece(x);
        assert forall|j: int| 0 <= j < k.len() implies k[j] != ':' && k[j] != '\n' by {
            assert(k[j] == x[p + j]);
            assert(x[p + j] == t[p + j]);
        }
        lemma_piece_without(t, '\n', cut + 1, t.len() as int);
        let y = t.subrange(cut + 1, t.len() as int);
        let (p2, q2) = lemma_trim_piece(y);
        assert forall|j: int| 0 <= j < v.len() implies v[j] != '\n' by {
            assert(v[j] == y[p2 + j]);
        }
        lemma_trim_idempotent(x);
        lemma_trim_idempotent(y);
        lemma_front_key(t, cut);
        if is_prefix_seq("//"@, k) {
            assert(t.subrange(0, 2) =~= "//"@);
        }
    } else {
        assert(k == t);
        assert(v == Seq::<char>::empty());
        assert(trim_start_seq(v) =~= v);
        assert(trim_end_seq(v) =~= v);
        assert forall|j: int| 0 <= j < k.len() implies k[j] != ':' && k[j] != '\n' by {
            assert(t.subrange(0, t.len() as int)[j] == t[j]);
        }
    }
}

/// Reading bulk text, writing the pairs back and reading again gives the
/// same pairs: the text is put in its normal form (`key: value`, trimmed,
/// comments and blank lines dropped) and reading that form loses nothing,
/// as long as every pair read has a key.
pub proof fn law_bulk_text_normal_form(text: Seq<char>)
    requires
        forall|k: int| 0 <= k < bulk_entries(lines_seq(text)).len() ==> (#[trigger] bulk_entries(
            lines_seq(text),
        )[k]).0.len() > 0,
    ensures
        bulk_entries(lines_seq(join_seq(bulk_lines(bulk_entries(lines_seq(text))), "\n"@))) == bulk_entries(
            lines_seq(text),
        ),
{
    let lines = lines_seq(text);
    let items = bulk_entries(lines);
    lemma_lines_without_feeds(text);
    lemma_entries_from_lines(lines);
    assert forall|i: int| 0 <= i < items.len() implies bulk_safe(#[trigger] items[i].0, items[i].1) by {
        let j = choose|j: int| 0 <= j < lines.len() && bulk_entry(lines[j]) == Some(items[i]);
        assert forall|q: int| 0 <= q < lines[j].len() implies lines[j][q] != '\n' by {
            assert(lines_seq(text)[j][q] != '\n');
        }
        lemma_entry_safe(lines[j]);
    }
    law_bulk_text_round_trip(items);
}

proof fn lemma_plain_word_form(w: Seq<char>)
    requires
        plain_word(w),
    ensures
        plain_form_word(w),
        is_ascii_text(w),
        forall|i: int| 0 <= i < w.len() ==> #[trigger] w[i] != '=' && w[i] != '&' && w[i] != '?',
{
    assert forall|i: int| 0 <= i < w.len() implies (#[trigger] w[i] as u32) < 0x80 by {
        assert(unreserved(w[i]));
    }
    assert forall|i: int| 0 <= i < w.len() implies #[trigger] w[i] != '%' && w[i] != '+' && w[i] != '&' && w[i]
        != '=' by {
        assert(unreserved(w[i]));
    }
    assert forall|i: int| 0 <= i < w.len() implies #[trigger] w[i] != '=' && w[i] != '&' && w[i] != '?' by {
        assert(unreserved(w[i]));
    }
}

/// How a plain piece reads: with no `=`, a word left as it is by decoding;
/// else two such words around its only `=`.
proof fn lemma_plain_piece(p: Seq<char>)
    ensures
        plain_piece(p) ==> match first_index_of(p, '=') {
            None => plain_word(p) && plain_form_word(p),
            Some(e) => 0 < e < p.len() - 1 && plain_word(p.subrange(0, e)) && plain_word(
                p.subrange(e + 1, p.len() as int),
            ) && plain_form_word(p.subrange(0, e)) && plain_form_word(p.subrange(e + 1, p.len() as int)),
        },
{
    lemma_first_index_of(p, '=');
    if plain_piece(p) {
        if plain_word(p) {
            lemma_plain_word_form(p);
        } else {
            let e = choose|e: int|
                0 < e < p.len() && p[e] == '=' && #[trigger] plain_word(p.subrange(0, e)) && plain_word(
                    p.subrange(e + 1, p.len() as int),
                );
            let a = p.subrange(0, e);
            let b = p.subrange(e + 1, p.len() as int);
            lemma_plain_word_form(a);
            lemma_plain_word_form(b);
            let f = first_index_of(p, '=')->0;
            if f < e {
                assert(a[f] == p[f]);
            }
            assert(f == e);
        }
    }
}

/// The serializer leaves a text of unreserved characters as it is.
proof fn lemma_encoded_unreserved(w: Seq<char>)
    requires
        forall|i: int| 0 <= i < w.len() ==> unreserved(#[trigger] w[i]),
    ensures
        form_encoded_ascii(w) == w,
    decreases w.len(),
{
    if w.len() > 0 {
        lemma_encoded_unreserved(w.drop_last());
        assert(unreserved(w[w.len() - 1]));
        assert(form_ascii_char(w.last()) == seq![w.last()]);
        assert(w.drop_last().push(w.last()) =~= w);
    }
}

/// A plain piece is written back as it was read.
proof fn lemma_plain_part(p: Seq<char>)
    requires
        plain_piece(p),
    ensures
        plain_pair(p).enabled,
        is_ascii_text(plain_pair(p).key),
        is_ascii_text(plain_pair(p).value),
        param_part_ascii(plain_pair(p)) == p,
{
    reveal_strlit("=");
    lemma_plain_piece(p);
    assert(form_encoded_ascii(Seq::<char>::empty()) == Seq::<char>::empty());
    match first_index_of(p, '=') {
        None => {
            lemma_plain_word_form(p);
            lemma_encoded_unreserved(p);
            assert(is_ascii_text(Seq::<char>::empty()));
        },
        Some(e) => {
            let a = p.subrange(0, e);
            let b = p.subrange(e + 1, p.len() as int);
            lemma_plain_word_form(a);
            lemma_plain_word_form(b);
            lemma_encoded_unreserved(a);
            lemma_encoded_unreserved(b);
            lemma_first_index_of(p, '=');
            assert(p[e] == '=');
            assert(a + "="@ + b =~= p);
        },
    }
}

/// Joining with `sep`, seen from the front.
proof fn lemma_join_seq_front(x: Seq<char>, rest: Seq<Seq<char>>, sep: Seq<char>)
    requires
        rest.len() >= 1,
    ensures
        join_seq(seq![x] + rest, sep) == x + sep + join_seq(rest, sep),
    decreases rest.len(),
{
    let all = seq![x] + rest;
    assert(join_seq(all, sep) == join_seq(all.drop_last(), sep) + sep + all.last());
    if rest.len() == 1 {
        assert(all.drop_last() =~= seq![x]);
        assert(join_seq(seq![x], sep) == x);
        assert(join_seq(rest, sep) == rest[0]);
    } else {
        lemma_join_seq_front(x, rest.drop_last(), sep);
        assert(all.drop_last() =~= seq![x] + rest.drop_last());
        assert(join_seq(rest, sep) == join_seq(rest.drop_last(), sep) + sep + rest.last());
        assert(join_seq(all, sep) =~= x + sep + join_seq(rest, sep));
    }
}

/// Splitting at `&` and joining with `&` gives the text back.
proof fn lemma_split_join(q: Seq<char>)
    ensures
        split_on(q, '&').len() >= 1,
        join_seq(split_on(q, '&'), "&"@) == q,
    decreases q.len(),
{
    reveal_strlit("&");
    crate::text::lemma_char_index(q, '&');
    let i = char_index(q, '&');
    if 0 <= i < q.len() {
        let rest = q.subrange(i + 1, q.len() as int);
        lemma_split_join(rest);
        lemma_join_seq_front(q.subrange(0, i), split_on(rest, '&'), "&"@);
        assert(q =~= q.subrange(0, i) + "&"@ + rest);
    } else {
        assert(split_on(q, '&') == seq![q]);
    }
}

/// The parts written for plain pieces are the pieces.
proof fn lemma_plain_parts(pieces: Seq<Seq<char>>)
    requires
        forall|k: int| 0 <= k < pieces.len() ==> plain_piece(#[trigger] pieces[k]),
    ensures
        enabled_parts_ascii(plain_params(pieces)) == pieces,
        ascii_params(plain_params(pieces)),
    decreases pieces.len(),
{
    if pieces.len() > 0 {
        let init = pieces.drop_last();
        assert forall|k: int| 0 <= k < init.len() implies plain_piece(#[trigger] init[k]) by {
            assert(init[k] == pieces[k]);
        }
        lemma_plain_parts(init);
        assert(plain_params(pieces).drop_last() =~= plain_params(init));
        lemma_plain_part(pieces.last());
        assert(pieces.last() == pieces[pieces.len() - 1]);
        assert(init.push(pieces.last()) =~= pieces);
        assert forall|i: int| 0 <= i < plain_params(pieces).len() && (#[trigger] plain_params(pieces)[i]).enabled
            implies is_ascii_text(plain_params(pieces)[i].key) && is_ascii_text(plain_params(pieces)[i].value) by {
            if i < init.len() {
                assert(plain_params(pieces)[i] == plain_params(init)[i]);
            }
        }
    } else {
        assert(plain_params(pieces) =~= Seq::<ParamView>::empty());
    }
}

/// Parsing a URL and building it again gives it back, when its base has no
/// `?` and its query is written plainly (pieces of letters, digits and
/// `*-._`, each a word or two words around one `=`): `parse_url` splits it
/// at that `?` into the base and `plain_params` of the query, and
/// `build_url` writes those back into the same URL.
pub proof fn law_url_round_trip(base: Seq<char>, q: Seq<char>)
    requires
        forall|j: int| 0 <= j < base.len() ==> base[j] != '?',
        q.len() > 0,
        plain_query(q),
    ensures
        first_index_of(base + "?"@ + q, '?') == Some(base.len() as int),
        (base + "?"@ + q).subrange(base.len() + 1int, (base + "?"@ + q).len() as int) == q,
        ascii_params(plain_params(split_on(q, '&'))),
        built_url_ascii(base, plain_params(split_on(q, '&'))) == base + "?"@ + q,
{
    reveal_strlit("?");
    let url = base + "?"@ + q;
    lemma_first_index_of(url, '?');
    assert(url[base.len() as int] == '?');
    match first_index_of(url, '?') {
        Some(f) => {
            if f < base.len() {
                assert(url[f] == base[f]);
            }
        },
        None => {},
    }
    assert(url.subrange(base.len() + 1int, url.len() as int) =~= q);
    let pieces = split_on(q, '&');
    lemma_split_join(q);
    lemma_plain_parts(pieces);
    assert(!base.contains('?'));
}

} // verus!
