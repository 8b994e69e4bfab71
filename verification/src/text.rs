//! Character-sequence helpers shared by the parsers and formatters.
//!
//! Text is reasoned about as the sequence of Unicode scalar values it holds
//! (`String@`), and positions count characters.
use vstd::prelude::*;

verus! {

pub assume_specification[ std::string::String::push ](s: &mut std::string::String, ch: char)
    ensures
        final(s)@ == old(s)@.push(ch),
;

pub assume_specification[ std::string::String::push_str ](s: &mut std::string::String, string: &str)
    ensures
        final(s)@ == old(s)@ + string@,
;

/// What `char::is_whitespace` answers for a character (Unicode `White_Space`).
pub uninterp spec fn unicode_whitespace(c: char) -> bool;

/// What `char::is_alphanumeric` answers for a character (Unicode `Alphabetic` or `Numeric`).
pub uninterp spec fn unicode_alphanumeric(c: char) -> bool;

/// What `str::to_lowercase` returns for a text.
pub uninterp spec fn lowercase(s: Seq<char>) -> Seq<char>;

/// What `str::to_uppercase` returns for a text.
pub uninterp spec fn uppercase(s: Seq<char>) -> Seq<char>;

/// White space as `char::is_whitespace` answers it: among ASCII characters
/// exactly tab, line feed, vertical tab, form feed, carriage return and
/// space (the Unicode `White_Space` property there), `unicode_whitespace`
/// beyond ASCII.
pub open spec fn white_space(c: char) -> bool {
    if c <= '\x7f' {
        c == '\t' || c == '\n' || c == '\x0B' || c == '\x0C' || c == '\r' || c == ' '
    } else {
        unicode_whitespace(c)
    }
}

/// Calls `char::is_whitespace`, which answers the Unicode `White_Space`
/// property; among ASCII characters that property holds for tab, line feed,
/// vertical tab, form feed, carriage return and space only.
#[verifier::external_body]
pub(crate) fn is_whitespace(c: char) -> (r: bool)
    ensures
        r == unicode_whitespace(c),
        r == white_space(c),
{
    c.is_whitespace()
}

/// Calls `char::is_alphanumeric`; the result is named `unicode_alphanumeric`.
/// ASCII letters and digits are alphanumeric and ASCII punctuation and
/// white space are not, as the standard library documents.
#[verifier::external_body]
pub(crate) fn is_alphanumeric(c: char) -> (r: bool)
    ensures
        r == unicode_alphanumeric(c),
        is_ascii_alnum(c) ==> r,
        ('\0' <= c <= '\x7f' && !is_ascii_alnum(c)) ==> !r,
{
    c.is_alphanumeric()
}

/// Every character of `s` is ASCII.
pub open spec fn is_ascii_text(s: Seq<char>) -> bool {
    forall|i: int| 0 <= i < s.len() ==> (#[trigger] s[i] as u32) < 0x80
}

pub open spec fn ascii_upper(c: char) -> char {
    if 'a' <= c <= 'z' {
        ((c as u32) - 32) as char
    } else {
        c
    }
}

/// The characters of `s` with ASCII small letters raised.
pub open spec fn ascii_uppered(s: Seq<char>) -> Seq<char> {
    s.map_values(|c: char| ascii_upper(c))
}

/// Calls `str::to_lowercase`; the result is named `lowercase`. On ASCII
/// text the Unicode mapping lowers `A`-`Z` and keeps every other character.
#[verifier::external_body]
pub(crate) fn to_lowercase(s: &str) -> (r: String)
    ensures
        r@ == lowercase(s@),
        is_ascii_text(s@) ==> r@ == ascii_lowered(s@),
{
    s.to_lowercase()
}

/// Calls `str::to_uppercase`; the result is named `uppercase`. On ASCII
/// text the Unicode mapping raises `a`-`z` and keeps every other character.
#[verifier::external_body]
pub(crate) fn to_uppercase(s: &str) -> (r: String)
    ensures
        r@ == uppercase(s@),
        is_ascii_text(s@) ==> r@ == ascii_uppered(s@),
{
    s.to_uppercase()
}

pub open spec fn is_ascii_alnum(c: char) -> bool {
    ('a' <= c <= 'z') || ('A' <= c <= 'Z') || ('0' <= c <= '9')
}

pub open spec fn ascii_lower(c: char) -> char {
    if 'A' <= c <= 'Z' {
        ((c as u32) + 32) as char
    } else {
        c
    }
}

pub fn to_ascii_lowercase(c: char) -> (r: char)
    ensures
        r == ascii_lower(c),
{
    if 'A' <= c && c <= 'Z' {
        ((c as u8) + 32) as char
    } else {
        c
    }
}

/// The characters of `s`.
pub fn chars_of(s: &str) -> (v: Vec<char>)
    ensures
        v@ == s@,
{
    let mut v: Vec<char> = Vec::new();
    for c in it: s.chars()
        invariant
            v@ == it.seq().take(it.index() as int),
            it.seq() == s@,
    {
        v.push(c);
    }
    v
}

/// A string holding exactly the characters of `v`.
pub fn string_of(v: &[char]) -> (s: String)
    ensures
        s@ == v@,
{
    let mut s = String::new();
    let mut i: usize = 0;
    while i < v.len()
        invariant
            i <= v.len(),
            s@ == v@.take(i as int),
        decreases v.len() - i,
    {
        s.push(v[i]);
        i = i + 1;
        assert(s@ =~= v@.take(i as int));
    }
    assert(v@.take(v.len() as int) =~= v@);
    s
}

/// A string holding the characters of `v` from `start` up to `end`.
pub fn string_of_range(v: &[char], start: usize, end: usize) -> (s: String)
    requires
        start <= end <= v.len(),
    ensures
        s@ == v@.subrange(start as int, end as int),
{
    let mut s = String::new();
    let mut i: usize = start;
    while i < end
        invariant
            start <= i <= end <= v.len(),
            s@ == v@.subrange(start as int, i as int),
        decreases end - i,
    {
        s.push(v[i]);
        i = i + 1;
        assert(s@ =~= v@.subrange(start as int, i as int));
    }
    s
}

/// Appends the characters of `v` from `start` up to `end` to `s`.
pub fn push_range(s: &mut String, v: &[char], start: usize, end: usize)
    requires
        start <= end <= v.len(),
    ensures
        final(s)@ == old(s)@ + v@.subrange(start as int, end as int),
{
    let mut i: usize = start;
    while i < end
        invariant
            start <= i <= end <= v.len(),
            s@ == old(s)@ + v@.subrange(start as int, i as int),
        decreases end - i,
    {
        s.push(v[i]);
        i = i + 1;
        assert(s@ =~= old(s)@ + v@.subrange(start as int, i as int));
    }
}

/// Text equality by content.
pub fn str_eq(a: &str, b: &str) -> (r: bool)
    ensures
        r == (a@ == b@),
{
    let x = chars_of(a);
    let y = chars_of(b);
    seq_eq(&x, &y)
}

pub fn seq_eq(x: &[char], y: &[char]) -> (r: bool)
    ensures
        r == (x@ == y@),
{
    if x.len() != y.len() {
        return false;
    }
    let mut i: usize = 0;
    while i < x.len()
        invariant
            i <= x.len() == y.len(),
            forall|j: int| 0 <= j < i ==> x@[j] == y@[j],
        decreases x.len() - i,
    {
        if x[i] != y[i] {
            return false;
        }
        i = i + 1;
    }
    assert(x@ =~= y@);
    true
}

// ---------------------------------------------------------------------------
// White space trimming
// ---------------------------------------------------------------------------

pub open spec fn trim_start_seq(s: Seq<char>) -> Seq<char>
    decreases s.len(),
{
    if s.len() > 0 && white_space(s[0]) {
        trim_start_seq(s.drop_first())
    } else {
        s
    }
}

pub open spec fn trim_end_seq(s: Seq<char>) -> Seq<char>
    decreases s.len(),
{
    if s.len() > 0 && white_space(s.last()) {
        trim_end_seq(s.drop_last())
    } else {
        s
    }
}

/// What `str::trim` keeps: the text without leading and trailing white space.
pub open spec fn trim_seq(s: Seq<char>) -> Seq<char> {
    trim_end_seq(trim_start_seq(s))
}

/// Index of the first character of `s[from..]` that is not white space, or `s.len()`.
fn skip_ws_forward(s: &[char], from: usize) -> (r: usize)
    requires
        from <= s.len(),
    ensures
        from <= r <= s.len(),
        trim_start_seq(s@.subrange(from as int, s.len() as int)) == s@.subrange(
            r as int,
            s.len() as int,
        ),
    decreases s.len() - from,
{
    if from < s.len() && is_whitespace(s[from]) {
        let r = skip_ws_forward(s, from + 1);
        assert(s@.subrange(from as int, s.len() as int).drop_first() =~= s@.subrange(
            from + 1,
            s.len() as int,
        ));
        r
    } else {
        from
    }
}

/// End index after dropping trailing white space from `s[start..end]`.
fn skip_ws_backward(s: &[char], start: usize, end: usize) -> (r: usize)
    requires
        start <= end <= s.len(),
    ensures
        start <= r <= end,
        trim_end_seq(s@.subrange(start as int, end as int)) == s@.subrange(start as int, r as int),
    decreases end - start,
{
    if start < end && is_whitespace(s[end - 1]) {
        let r = skip_ws_backward(s, start, end - 1);
        assert(s@.subrange(start as int, end as int).drop_last() =~= s@.subrange(
            start as int,
            end - 1,
        ));
        r
    } else {
        end
    }
}

/// Bounds `(a, b)` with `s[a..b] == trim(s[start..end])`.
pub fn trim_bounds(s: &[char], start: usize, end: usize) -> (r: (usize, usize))
    requires
        start <= end <= s.len(),
    ensures
        start <= r.0 <= r.1 <= end,
        s@.subrange(r.0 as int, r.1 as int) == trim_seq(s@.subrange(start as int, end as int)),
{
    let sub = slice_range(s, start, end);
    let a = skip_ws_forward(&sub, 0);
    let b = skip_ws_backward(&sub, a, sub.len());
    assert(sub@.subrange(0, sub@.len() as int) =~= sub@);
    assert(sub@.subrange(a as int, b as int) =~= s@.subrange(start + a, start + b));
    assert(sub@.subrange(a as int, sub@.len() as int) =~= s@.subrange(start + a, end as int));
    (start + a, start + b)
}

/// `str::trim` on a text.
pub fn trim(s: &str) -> (r: String)
    ensures
        r@ == trim_seq(s@),
{
    let v = chars_of(s);
    let (a, b) = trim_bounds(&v, 0, v.len());
    assert(v@.subrange(0, v@.len() as int) =~= v@);
    string_of_range(&v, a, b)
}

/// A copy of `s[start..end]`.
pub fn slice_range(s: &[char], start: usize, end: usize) -> (r: Vec<char>)
    requires
        start <= end <= s.len(),
    ensures
        r@ == s@.subrange(start as int, end as int),
{
    let mut r: Vec<char> = Vec::new();
    let mut i = start;
    while i < end
        invariant
            start <= i <= end <= s.len(),
            r@ == s@.subrange(start as int, i as int),
        decreases end - i,
    {
        r.push(s[i]);
        i = i + 1;
        assert(r@ =~= s@.subrange(start as int, i as int));
    }
    r
}

// ---------------------------------------------------------------------------
// Searching
// ---------------------------------------------------------------------------

/// `pat` occurs in `s` starting at index `i`.
pub open spec fn occurs_at(s: Seq<char>, pat: Seq<char>, i: int) -> bool {
    0 <= i && i + pat.len() <= s.len() && s.subrange(i, i + pat.len()) == pat
}

/// `pat` occurs somewhere in `s` (what `str::contains` answers).
pub open spec fn contains_seq(s: Seq<char>, pat: Seq<char>) -> bool {
    exists|i: int| occurs_at(s, pat, i)
}

/// The first index at which `pat` occurs in `s` (what `str::find` answers).
pub open spec fn find_seq(s: Seq<char>, pat: Seq<char>) -> Option<int> {
    if contains_seq(s, pat) {
        Some(choose|i: int| occurs_at(s, pat, i) && forall|j: int| 0 <= j < i ==> !occurs_at(s, pat, j))
    } else {
        None
    }
}

pub open spec fn is_prefix_seq(p: Seq<char>, s: Seq<char>) -> bool {
    p.len() <= s.len() && s.subrange(0, p.len() as int) == p
}

pub open spec fn is_suffix_seq(p: Seq<char>, s: Seq<char>) -> bool {
    p.len() <= s.len() && s.subrange(s.len() - p.len(), s.len() as int) == p
}

pub fn matches_at(s: &[char], pat: &[char], i: usize) -> (r: bool)
    ensures
        r == occurs_at(s@, pat@, i as int),
{
    if i > s.len() || pat.len() > s.len() - i {
        return false;
    }
    let mut k: usize = 0;
    while k < pat.len()
        invariant
            i + pat.len() <= s.len(),
            k <= pat.len(),
            forall|j: int| 0 <= j < k ==> s@[i + j] == pat@[j],
        decreases pat.len() - k,
    {
        if s[i + k] != pat[k] {
            assert(s@.subrange(i as int, i + pat.len())[k as int] != pat@[k as int]);
            return false;
        }
        k = k + 1;
    }
    assert(s@.subrange(i as int, i + pat.len()) =~= pat@);
    true
}

proof fn lemma_find_is_first(s: Seq<char>, pat: Seq<char>, i: int)
    requires
        occurs_at(s, pat, i),
        forall|j: int| 0 <= j < i ==> !occurs_at(s, pat, j),
    ensures
        find_seq(s, pat) == Some(i),
{
    let k = choose|k: int| occurs_at(s, pat, k) && forall|j: int| 0 <= j < k ==> !occurs_at(s, pat, j);
    assert(occurs_at(s, pat, k) && forall|j: int| 0 <= j < k ==> !occurs_at(s, pat, j));
    if k < i {
        assert(!occurs_at(s, pat, k));
    }
    if i < k {
        assert(!occurs_at(s, pat, i));
    }
}

/// The first index `>= from` at which `pat` occurs in `s`.
pub fn find_from(s: &[char], pat: &[char], from: usize) -> (r: Option<usize>)
    requires
        from <= s.len(),
    ensures
        match r {
            Some(i) => from <= i && occurs_at(s@, pat@, i as int) && forall|j: int|
                from <= j < i ==> !occurs_at(s@, pat@, j),
            None => forall|j: int| from <= j ==> !occurs_at(s@, pat@, j),
        },
{
    if pat.len() > s.len() {
        return None;
    }
    let last = s.len() - pat.len();
    if from > last {
        return None;
    }
    let mut i = from;
    loop
        invariant
            from <= i <= last,
            last == s.len() - pat.len(),
            forall|j: int| from <= j < i ==> !occurs_at(s@, pat@, j),
        decreases last - i,
    {
        if matches_at(s, pat, i) {
            return Some(i);
        }
        if i == last {
            return None;
        }
        i = i + 1;
    }
}

/// `str::find` on character sequences.
pub fn find(s: &[char], pat: &[char]) -> (r: Option<usize>)
    ensures
        match r {
            Some(i) => find_seq(s@, pat@) == Some(i as int),
            None => find_seq(s@, pat@) is None,
        },
{
    let r = find_from(s, pat, 0);
    match r {
        Some(i) => {
            proof {
                lemma_find_is_first(s@, pat@, i as int);
            }
        },
        None => {},
    }
    r
}

/// `str::contains` on character sequences.
pub fn contains(s: &[char], pat: &[char]) -> (r: bool)
    ensures
        r == contains_seq(s@, pat@),
{
    match find_from(s, pat, 0) {
        Some(i) => true,
        None => {
            assert forall|i: int| !occurs_at(s@, pat@, i) by {
                if i < 0 {
                }
            }
            false
        },
    }
}

/// First index of `c` in `s[from..]`.
pub fn find_char_from(s: &[char], c: char, from: usize) -> (r: Option<usize>)
    requires
        from <= s.len(),
    ensures
        match r {
            Some(i) => from <= i < s.len() && s@[i as int] == c && forall|j: int|
                from <= j < i ==> s@[j] != c,
            None => forall|j: int| from <= j < s.len() ==> s@[j] != c,
        },
{
    let mut i = from;
    while i < s.len()
        invariant
            from <= i <= s.len(),
            forall|j: int| from <= j < i ==> s@[j] != c,
        decreases s.len() - i,
    {
        if s[i] == c {
            return Some(i);
        }
        i = i + 1;
    }
    None
}

pub open spec fn first_index_of(s: Seq<char>, c: char) -> Option<int> {
    if exists|i: int| 0 <= i < s.len() && s[i] == c {
        Some(choose|i: int| 0 <= i < s.len() && s[i] == c && forall|j: int| 0 <= j < i ==> s[j] != c)
    } else {
        None
    }
}

/// `str::find` with a single character.
pub fn find_char(s: &[char], c: char) -> (r: Option<usize>)
    ensures
        match r {
            Some(i) => first_index_of(s@, c) == Some(i as int) && i < s.len() && s@[i as int] == c,
            None => first_index_of(s@, c) is None,
        },
{
    let r = find_char_from(s, c, 0);
    match r {
        Some(i) => {
            proof {
                let k = choose|k: int| 0 <= k < s@.len() && s@[k] == c && forall|j: int| 0 <= j < k ==> s@[j] != c;
                assert(0 <= k < s@.len() && s@[k] == c && forall|j: int| 0 <= j < k ==> s@[j] != c);
                if k < i { assert(s@[k] != c); }
                if i < k { assert(s@[i as int] != c); }
            }
        },
        None => {},
    }
    r
}

pub fn starts_with(s: &[char], p: &[char]) -> (r: bool)
    ensures
        r == is_prefix_seq(p@, s@),
{
    let r = matches_at(s, p, 0);
    r
}

pub fn ends_with(s: &[char], p: &[char]) -> (r: bool)
    ensures
        r == is_suffix_seq(p@, s@),
{
    if p.len() > s.len() {
        return false;
    }
    matches_at(s, p, s.len() - p.len())
}

// ---------------------------------------------------------------------------
// Lines
// ---------------------------------------------------------------------------

/// Drops one trailing carriage return.
pub open spec fn strip_cr(s: Seq<char>) -> Seq<char> {
    if s.len() > 0 && s.last() == '\r' {
        s.drop_last()
    } else {
        s
    }
}

/// Index of the first line feed in `s`, or `s.len()` when there is none.
pub open spec fn nl_index(s: Seq<char>) -> int
    decreases s.len(),
{
    if s.len() == 0 {
        0
    } else if s[0] == '\n' {
        0
    } else {
        1 + nl_index(s.drop_first())
    }
}

pub proof fn lemma_nl_index(s: Seq<char>)
    ensures
        0 <= nl_index(s) <= s.len(),
        forall|j: int| 0 <= j < nl_index(s) ==> s[j] != '\n',
        nl_index(s) < s.len() ==> s[nl_index(s)] == '\n',
    decreases s.len(),
{
    if s.len() > 0 && s[0] != '\n' {
        lemma_nl_index(s.drop_first());
        assert forall|j: int| 0 <= j < nl_index(s) implies s[j] != '\n' by {
            if j > 0 {
                assert(s[j] == s.drop_first()[j - 1]);
            }
        }
    }
}

pub proof fn lemma_nl_index_is(s: Seq<char>, i: int)
    requires
        0 <= i <= s.len(),
        forall|j: int| 0 <= j < i ==> s[j] != '\n',
        i < s.len() ==> s[i] == '\n',
    ensures
        nl_index(s) == i,
{
    lemma_nl_index(s);
    let k = nl_index(s);
    if k < i {
        assert(s[k] != '\n');
    }
    if i < k {
        assert(s[i] != '\n');
    }
}

/// What `str::lines` yields: pieces separated by line feeds, each without a
/// trailing carriage return, and no final empty piece after a last line feed.
pub open spec fn lines_seq(s: Seq<char>) -> Seq<Seq<char>>
    decreases s.len(),
{
    if s.len() == 0 {
        Seq::empty()
    } else {
        let i = nl_index(s);
        if 0 <= i < s.len() {
            seq![strip_cr(s.subrange(0, i))] + lines_seq(s.subrange(i + 1, s.len() as int))
        } else {
            seq![strip_cr(s)]
        }
    }
}

pub proof fn lemma_lines_nonempty(s: Seq<char>)
    requires
        s.len() > 0,
    ensures
        lines_seq(s).len() >= 1,
{
}

pub open spec fn views(v: Seq<Vec<char>>) -> Seq<Seq<char>> {
    v.map_values(|l: Vec<char>| l@)
}

pub proof fn lemma_views_edit(v: Seq<Vec<char>>, x: Vec<char>, k: int)
    ensures
        0 <= k < v.len() ==> views(v.update(k, x)) == views(v).update(k, x@),
        0 <= k < v.len() ==> views(v.remove(k)) == views(v).remove(k),
        0 <= k <= v.len() ==> views(v.insert(k, x)) == views(v).insert(k, x@),
        views(v).len() == v.len(),
{
    if 0 <= k < v.len() {
        assert(views(v.update(k, x)) =~= views(v).update(k, x@));
        assert(views(v.remove(k)) =~= views(v).remove(k));
    }
    if 0 <= k <= v.len() {
        assert(views(v.insert(k, x)) =~= views(v).insert(k, x@));
    }
}

pub proof fn lemma_views_push(v: Seq<Vec<char>>, x: Vec<char>)
    ensures
        views(v.push(x)) == views(v).push(x@),
{
    assert(views(v.push(x)) =~= views(v).push(x@));
}

/// `str::lines` on a character sequence.
pub fn split_lines(s: &[char]) -> (r: Vec<Vec<char>>)
    ensures
        views(r@) == lines_seq(s@),
{
    let mut out: Vec<Vec<char>> = Vec::new();
    let mut start: usize = 0;
    assert(s@.subrange(0, s.len() as int) =~= s@);
    assert(views(out@) =~= Seq::<Seq<char>>::empty());
    assert(Seq::<Seq<char>>::empty() + lines_seq(s@) =~= lines_seq(s@));
    while start < s.len()
        invariant
            start <= s.len(),
            views(out@) + lines_seq(s@.subrange(start as int, s.len() as int)) == lines_seq(s@),
        decreases s.len() - start,
    {
        let ghost rest = s@.subrange(start as int, s.len() as int);
        let mut end = start;
        while end < s.len() && s[end] != '\n'
            invariant
                start <= end <= s.len(),
                forall|j: int| start <= j < end ==> s@[j] != '\n',
            decreases s.len() - end,
        {
            end = end + 1;
        }
        let mut piece_end = end;
        if piece_end > start && s[piece_end - 1] == '\r' {
            piece_end = piece_end - 1;
        }
        let piece = slice_range(s, start, piece_end);
        proof {
            lemma_nl_index_is(rest, end - start);
            assert(piece@ =~= strip_cr(rest.subrange(0, end - start)));
            if end < s.len() {
                assert(rest.subrange(end - start + 1, rest.len() as int) =~= s@.subrange(
                    end + 1,
                    s.len() as int,
                ));
            } else {
                assert(rest.subrange(0, end - start) =~= rest);
            }
        }
        let ghost before = out@;
        out.push(piece);
        proof {
            lemma_views_push(before, piece);
        }
        start = if end < s.len() {
            end + 1
        } else {
            end
        };
        proof {
            if start == s.len() {
                assert(s@.subrange(start as int, s.len() as int) =~= Seq::<char>::empty());
            }
            assert(lines_seq(rest) == seq![piece@] + lines_seq(
                s@.subrange(start as int, s.len() as int),
            ));
            assert(views(out@) + lines_seq(s@.subrange(start as int, s.len() as int))
                =~= views(before) + lines_seq(rest));
        }
    }
    proof {
        assert(s@.subrange(start as int, s.len() as int) =~= Seq::<char>::empty());
        assert(views(out@) + Seq::<Seq<char>>::empty() =~= views(out@));
    }
    out
}

// ---------------------------------------------------------------------------
// Decimal and hexadecimal rendering
// ---------------------------------------------------------------------------

pub open spec fn digit_char(d: nat) -> char {
    if d == 0 { '0' }
    else if d == 1 { '1' }
    else if d == 2 { '2' }
    else if d == 3 { '3' }
    else if d == 4 { '4' }
    else if d == 5 { '5' }
    else if d == 6 { '6' }
    else if d == 7 { '7' }
    else if d == 8 { '8' }
    else if d == 9 { '9' }
    else if d == 10 { 'a' }
    else if d == 11 { 'b' }
    else if d == 12 { 'c' }
    else if d == 13 { 'd' }
    else if d == 14 { 'e' }
    else { 'f' }
}

/// Decimal digits of `n` (what `n.to_string()` renders for an unsigned integer).
pub open spec fn decimal(n: nat) -> Seq<char>
    decreases n,
{
    if n < 10 {
        seq![digit_char(n)]
    } else {
        decimal(n / 10).push(digit_char(n % 10))
    }
}

/// Lowercase hexadecimal digits of `n`, left-padded with zeros to `width` digits.
pub open spec fn hex_padded(n: nat, width: nat) -> Seq<char>
    decreases width,
{
    if width == 0 {
        Seq::empty()
    } else {
        hex_padded(n / 16, (width - 1) as nat).push(digit_char(n % 16))
    }
}

pub fn digit(d: u64) -> (c: char)
    requires
        d < 16,
    ensures
        c == digit_char(d as nat),
{
    if d == 0 { '0' }
    else if d == 1 { '1' }
    else if d == 2 { '2' }
    else if d == 3 { '3' }
    else if d == 4 { '4' }
    else if d == 5 { '5' }
    else if d == 6 { '6' }
    else if d == 7 { '7' }
    else if d == 8 { '8' }
    else if d == 9 { '9' }
    else if d == 10 { 'a' }
    else if d == 11 { 'b' }
    else if d == 12 { 'c' }
    else if d == 13 { 'd' }
    else if d == 14 { 'e' }
    else { 'f' }
}

/// Appends the decimal rendering of `n` to `s`.
pub fn push_decimal(s: &mut String, n: u64)
    ensures
        final(s)@ == old(s)@ + decimal(n as nat),
    decreases n,
{
    if n < 10 {
        s.push(digit(n));
        assert(decimal(n as nat) == seq![digit_char(n as nat)]);
    } else {
        push_decimal(s, n / 10);
        s.push(digit(n % 10));
        assert(decimal(n as nat) == decimal((n / 10) as nat).push(digit_char((n % 10) as nat)));
    }
}

/// Appends `n` in lowercase hexadecimal, zero-padded to `width` digits.
pub fn push_hex(s: &mut String, n: u64, width: u64)
    ensures
        final(s)@ == old(s)@ + hex_padded(n as nat, width as nat),
    decreases width,
{
    if width > 0 {
        push_hex(s, n / 16, width - 1);
        s.push(digit(n % 16));
        assert(hex_padded(n as nat, width as nat) == hex_padded(
            (n / 16) as nat,
            (width - 1) as nat,
        ).push(digit_char((n % 16) as nat)));
    } else {
        assert(old(s)@ + hex_padded(n as nat, 0) =~= old(s)@);
    }
}

/// Decimal rendering of `n` as a new string.
pub fn decimal_string(n: u64) -> (s: String)
    ensures
        s@ == decimal(n as nat),
{
    let mut s = String::new();
    push_decimal(&mut s, n);
    assert(Seq::<char>::empty() + decimal(n as nat) =~= decimal(n as nat));
    s
}

} // verus!

verus! {

/// Index of the first `c` in `s`, or `s.len()` when there is none.
pub open spec fn char_index(s: Seq<char>, c: char) -> int
    decreases s.len(),
{
    if s.len() == 0 {
        0
    } else if s[0] == c {
        0
    } else {
        1 + char_index(s.drop_first(), c)
    }
}

pub proof fn lemma_char_index(s: Seq<char>, c: char)
    ensures
        0 <= char_index(s, c) <= s.len(),
        forall|j: int| 0 <= j < char_index(s, c) ==> s[j] != c,
        char_index(s, c) < s.len() ==> s[char_index(s, c)] == c,
    decreases s.len(),
{
    if s.len() > 0 && s[0] != c {
        lemma_char_index(s.drop_first(), c);
        assert forall|j: int| 0 <= j < char_index(s, c) implies s[j] != c by {
            if j > 0 {
                assert(s[j] == s.drop_first()[j - 1]);
            }
        }
    }
}

pub proof fn lemma_char_index_is(s: Seq<char>, c: char, i: int)
    requires
        0 <= i <= s.len(),
        forall|j: int| 0 <= j < i ==> s[j] != c,
        i < s.len() ==> s[i] == c,
    ensures
        char_index(s, c) == i,
{
    lemma_char_index(s, c);
    let k = char_index(s, c);
    if k < i {
        assert(s[k] != c);
    }
    if i < k {
        assert(s[i] != c);
    }
}

/// What `str::split` with one character yields: every piece between
/// separators, empty ones included.
pub open spec fn split_on(s: Seq<char>, c: char) -> Seq<Seq<char>>
    decreases s.len(),
{
    let i = char_index(s, c);
    if 0 <= i < s.len() {
        seq![s.subrange(0, i)] + split_on(s.subrange(i + 1, s.len() as int), c)
    } else {
        seq![s]
    }
}

/// `str::split` with one character on a character sequence.
pub fn split_chars(s: &[char], c: char) -> (r: Vec<Vec<char>>)
    ensures
        views(r@) == split_on(s@, c),
        r@.len() >= 1,
{
    let mut out: Vec<Vec<char>> = Vec::new();
    let mut start: usize = 0;
    assert(s@.subrange(0, s.len() as int) =~= s@);
    assert(views(out@) =~= Seq::<Seq<char>>::empty());
    assert(Seq::<Seq<char>>::empty() + split_on(s@, c) =~= split_on(s@, c));
    loop
        invariant
            start <= s.len(),
            views(out@) + split_on(s@.subrange(start as int, s.len() as int), c) == split_on(s@, c),
        decreases s.len() - start,
    {
        let ghost rest = s@.subrange(start as int, s.len() as int);
        let mut end = start;
        while end < s.len() && s[end] != c
            invariant
                start <= end <= s.len(),
                forall|j: int| start <= j < end ==> s@[j] != c,
            decreases s.len() - end,
        {
            end = end + 1;
        }
        let piece = slice_range(s, start, end);
        proof {
            lemma_char_index_is(rest, c, end - start);
            assert(piece@ =~= rest.subrange(0, end - start));
        }
        let ghost before = out@;
        out.push(piece);
        proof {
            lemma_views_push(before, piece);
        }
        if end == s.len() {
            proof {
                assert(rest.subrange(0, end - start) =~= rest);
                assert(split_on(rest, c) == seq![piece@]);
                assert(views(out@) =~= views(before) + split_on(rest, c));
            }
            return out;
        }
        let ghost old_start = start;
        start = end + 1;
        proof {
            assert(rest.subrange(end - old_start + 1, rest.len() as int) =~= s@.subrange(
                start as int,
                s.len() as int,
            ));
            assert(views(out@) + split_on(s@.subrange(start as int, s.len() as int), c)
                =~= views(before) + split_on(rest, c));
        }
    }
}

} // verus!

verus! {

/// Appends `s[start..end]` to `v`.
pub fn extend_range(v: &mut Vec<char>, s: &[char], start: usize, end: usize)
    requires
        start <= end <= s.len(),
    ensures
        final(v)@ == old(v)@ + s@.subrange(start as int, end as int),
{
    let mut i: usize = start;
    while i < end
        invariant
            start <= i <= end <= s.len(),
            v@ == old(v)@ + s@.subrange(start as int, i as int),
        decreases end - i,
    {
        v.push(s[i]);
        i = i + 1;
        assert(v@ =~= old(v)@ + s@.subrange(start as int, i as int));
    }
}

/// Appends the characters of `s` to `v`.
pub fn extend_str(v: &mut Vec<char>, s: &str)
    ensures
        final(v)@ == old(v)@ + s@,
{
    let c = chars_of(s);
    extend_range(v, &c, 0, c.len());
    assert(c@.subrange(0, c@.len() as int) =~= c@);
}


// ---------------------------------------------------------------------------
// Lexicographic order
// ---------------------------------------------------------------------------

/// `a` sorts no later than `b`, comparing characters by code point (the
/// order of `str::cmp`).
pub open spec fn seq_le(a: Seq<char>, b: Seq<char>) -> bool
    decreases a.len(),
{
    if a.len() == 0 {
        true
    } else if b.len() == 0 {
        false
    } else if a[0] != b[0] {
        a[0] < b[0]
    } else {
        seq_le(a.drop_first(), b.drop_first())
    }
}

pub proof fn lemma_seq_le_total(a: Seq<char>, b: Seq<char>)
    ensures
        seq_le(a, b) || seq_le(b, a),
    decreases a.len(),
{
    if a.len() > 0 && b.len() > 0 && a[0] == b[0] {
        lemma_seq_le_total(a.drop_first(), b.drop_first());
    }
}

pub proof fn lemma_seq_le_antisymmetric(a: Seq<char>, b: Seq<char>)
    requires
        seq_le(a, b),
        seq_le(b, a),
    ensures
        a == b,
    decreases a.len(),
{
    if a.len() > 0 && b.len() > 0 {
        lemma_seq_le_antisymmetric(a.drop_first(), b.drop_first());
        assert(a =~= seq![a[0]] + a.drop_first());
        assert(b =~= seq![b[0]] + b.drop_first());
    } else {
        assert(a =~= b);
    }
}

pub proof fn lemma_seq_le_transitive(a: Seq<char>, b: Seq<char>, c: Seq<char>)
    requires
        seq_le(a, b),
        seq_le(b, c),
    ensures
        seq_le(a, c),
    decreases a.len(),
{
    if a.len() > 0 && b.len() > 0 && c.len() > 0 && a[0] == b[0] && b[0] == c[0] {
        lemma_seq_le_transitive(a.drop_first(), b.drop_first(), c.drop_first());
    }
}

/// Compares two character sequences in the order of `str::cmp`.
pub fn chars_le(a: &[char], b: &[char]) -> (r: bool)
    ensures
        r == seq_le(a@, b@),
{
    let mut i: usize = 0;
    assert(a@.skip(0) =~= a@);
    assert(b@.skip(0) =~= b@);
    while i < a.len() && i < b.len() && a[i] == b[i]
        invariant
            i <= a.len(),
            i <= b.len(),
            seq_le(a@, b@) == seq_le(a@.skip(i as int), b@.skip(i as int)),
        decreases a.len() - i,
    {
        proof {
            assert(a@.skip(i as int).drop_first() =~= a@.skip(i + 1));
            assert(b@.skip(i as int).drop_first() =~= b@.skip(i + 1));
        }
        i = i + 1;
    }
    if i == a.len() {
        true
    } else if i == b.len() {
        false
    } else {
        a[i] < b[i]
    }
}

/// Compares two strings in the order of `str::cmp`.
pub fn str_le(a: &str, b: &str) -> (r: bool)
    ensures
        r == seq_le(a@, b@),
{
    let x = chars_of(a);
    let y = chars_of(b);
    chars_le(&x, &y)
}


/// Lowercase hexadecimal digits of `n`, at least `width` of them (what
/// `{:0width$x}` renders).
pub open spec fn hex_wide(n: nat, width: nat) -> Seq<char>
    decreases n + width,
{
    if n < 16 && width <= 1 {
        seq![digit_char(n)]
    } else {
        hex_wide(n / 16, if width > 0 { (width - 1) as nat } else { 0 }).push(digit_char(n % 16))
    }
}

pub fn push_hex_wide(s: &mut String, n: u64, width: u64)
    ensures
        final(s)@ == old(s)@ + hex_wide(n as nat, width as nat),
    decreases n + width,
{
    if n < 16 && width <= 1 {
        s.push(digit(n));
    } else {
        push_hex_wide(s, n / 16, if width > 0 { width - 1 } else { 0 });
        s.push(digit(n % 16));
    }
}

/// The characters of `s` with ASCII capitals lowered.
pub open spec fn ascii_lowered(s: Seq<char>) -> Seq<char> {
    s.map_values(|c: char| ascii_lower(c))
}

/// `str::eq_ignore_ascii_case`.
pub fn eq_ignore_ascii_case(a: &str, b: &str) -> (r: bool)
    ensures
        r == (ascii_lowered(a@) == ascii_lowered(b@)),
{
    let x = chars_of(a);
    let y = chars_of(b);
    if x.len() != y.len() {
        assert(ascii_lowered(a@).len() != ascii_lowered(b@).len());
        return false;
    }
    let mut i: usize = 0;
    while i < x.len()
        invariant
            i <= x.len(),
            x@.len() == y@.len(),
            x@ == a@,
            y@ == b@,
            forall|k: int| 0 <= k < i ==> ascii_lower(x@[k]) == ascii_lower(y@[k]),
        decreases x.len() - i,
    {
        if to_ascii_lowercase(x[i]) != to_ascii_lowercase(y[i]) {
            assert(ascii_lowered(a@)[i as int] != ascii_lowered(b@)[i as int]);
            return false;
        }
        i = i + 1;
    }
    assert(ascii_lowered(a@) =~= ascii_lowered(b@));
    true
}

} // verus!
