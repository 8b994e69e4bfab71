//! Response viewing: status categories, sizes, hex dumps, cookies and JSON
//! formatting.
use vstd::prelude::*;
use crate::json::{json_pretty_text, pretty_print};
use crate::text::{
    ascii_lowered, chars_of, decimal, digit, digit_char, eq_ignore_ascii_case, find_char,
    first_index_of, hex_padded, hex_wide, push_decimal, push_hex, push_hex_wide, split_chars,
    split_on, string_of_range, trim_bounds, trim_seq, views,
};
use crate::text::string_of;

verus! {

/// Size from which a response counts as large: 10 MiB.
pub const LARGE_RESPONSE_THRESHOLD_BYTES: usize = 10485760;

/// Status category derived from an HTTP status code.
#[derive(Debug, Clone, Copy, PartialEq, Eq, Structural)]
pub enum HttpStatusCategory {
    Informational,
    Successful,
    Redirection,
    ClientError,
    ServerError,
    Unknown,
}

impl HttpStatusCategory {
    /// The class of a status code: 1xx to 5xx, anything else unknown.
    pub fn from_status_code(code: u16) -> (r: Self)
        ensures
            r == (if 100 <= code <= 199 {
                HttpStatusCategory::Informational
            } else if 200 <= code <= 299 {
                HttpStatusCategory::Successful
            } else if 300 <= code <= 399 {
                HttpStatusCategory::Redirection
            } else if 400 <= code <= 499 {
                HttpStatusCategory::ClientError
            } else if 500 <= code <= 599 {
                HttpStatusCategory::ServerError
            } else {
                HttpStatusCategory::Unknown
            }),
    {
        if 100 <= code && code <= 199 {
            HttpStatusCategory::Informational
        } else if 200 <= code && code <= 299 {
            HttpStatusCategory::Successful
        } else if 300 <= code && code <= 399 {
            HttpStatusCategory::Redirection
        } else if 400 <= code && code <= 499 {
            HttpStatusCategory::ClientError
        } else if 500 <= code && code <= 599 {
            HttpStatusCategory::ServerError
        } else {
            HttpStatusCategory::Unknown
        }
    }
}

/// `a / d` rounded to the nearest integer, ties to the even one.
pub open spec fn round_half_even(a: nat, d: nat) -> nat
    recommends
        d > 0,
{
    let q = a / d;
    let r = a % d;
    if 2 * r > d {
        q + 1
    } else if 2 * r < d {
        q
    } else if q % 2 == 0 {
        q
    } else {
        q + 1
    }
}

/// A byte count as people read it: `B` below 1 KiB, else KiB with one
/// decimal below 1 MiB, else MiB with two decimals (ties to even).
pub open spec fn byte_size_text(bytes: nat) -> Seq<char> {
    if bytes < 1024 {
        decimal(bytes) + " B"@
    } else if bytes < 1048576 {
        let n = round_half_even(bytes * 10, 1024);
        decimal(n / 10) + "."@ + seq![digit_char(n % 10)] + " KB"@
    } else {
        let n = round_half_even(bytes * 100, 1048576);
        decimal(n / 100) + "."@ + seq![digit_char((n % 100) / 10), digit_char(n % 10)] + " MB"@
    }
}

fn round_even(a: u128, d: u128) -> (r: u128)
    requires
        0 < d <= 0x1_0000_0000,
        a < 0x8000_0000_0000_0000_0000_0000_0000_0000u128,
    ensures
        r == round_half_even(a as nat, d as nat),
{
    let q = a / d;
    let r = a % d;
    if 2 * r > d {
        q + 1
    } else if 2 * r < d {
        q
    } else if q % 2 == 0 {
        q
    } else {
        q + 1
    }
}

/// Formats a byte count as `500 B`, `1.5 KB` or `2.00 MB`.
pub fn format_byte_size(bytes: usize) -> (r: String)
    ensures
        r@ == byte_size_text(bytes as nat),
{
    let mut s = String::new();
    if bytes < 1024 {
        push_decimal(&mut s, bytes as u64);
        s.push_str(" B");
    } else if bytes < 1048576 {
        let n = round_even(bytes as u128 * 10, 1024);
        assert(n <= (bytes as u128 * 10) / 1024 + 1);
        push_decimal(&mut s, (n / 10) as u64);
        s.push('.');
        s.push(digit((n % 10) as u64));
        s.push_str(" KB");
    } else {
        let n = round_even(bytes as u128 * 100, 1048576);
        assert(n <= (bytes as u128 * 100) / 1048576 + 1);
        assert(n / 100 <= 0xffff_ffff_ffff_ffff) by (nonlinear_arith)
            requires
                n <= (bytes as u128 * 100) / 1048576 + 1,
                bytes <= usize::MAX,
                usize::MAX <= 0xffff_ffff_ffff_ffff,
        ;
        push_decimal(&mut s, (n / 100) as u64);
        s.push('.');
        s.push(digit(((n % 100) / 10) as u64));
        s.push(digit((n % 10) as u64));
        s.push_str(" MB");
    }
    proof {
        reveal_strlit(".");
    }
    s
}

/// Active mode for rendering response body content.
#[derive(Debug, Clone, Copy, PartialEq, Eq, Structural, Default)]
pub enum ResponseBodyMode {
    #[default]
    Pretty,
    Raw,
    Hex,
    Preview,
}

/// Active response viewer tab.
#[derive(Debug, Clone, Copy, PartialEq, Eq, Structural, Default)]
pub enum ResponseViewTab {
    #[default]
    Body,
    Headers,
    Cookies,
    Timing,
}

/// Pretty-prints a JSON text; the error is the parser's when it is not JSON.
pub fn format_json_pretty(text: &str) -> (r: Result<String, serde_json::Error>)
    ensures
        r matches Ok(p) ==> json_pretty_text(text@) == Some(p@),
        r is Err ==> json_pretty_text(text@) is None,
{
    pretty_print(text)
}

// ---------------------------------------------------------------------------
// Hex dump
// ---------------------------------------------------------------------------

/// The cell of byte `i` of a chunk: two hex digits and a space, or blanks.
pub open spec fn hex_cell(chunk: Seq<u8>, i: int) -> Seq<char> {
    if i < chunk.len() {
        hex_padded(chunk[i] as nat, 2) + " "@
    } else {
        "   "@
    }
}

/// Cells of bytes `from..to` of a chunk.
pub open spec fn hex_cells(chunk: Seq<u8>, from: int, to: int) -> Seq<char>
    decreases to - from,
{
    if to <= from {
        Seq::empty()
    } else {
        hex_cells(chunk, from, to - 1) + hex_cell(chunk, to - 1)
    }
}

/// A byte as shown in the sidebar: printable ASCII as itself, else `.`.
pub open spec fn sidebar_char(b: u8) -> char {
    if 32 <= b <= 126 {
        b as char
    } else {
        '.'
    }
}

/// One dump line: offset, two groups of eight cells, and the sidebar.
pub open spec fn dump_line(offset: nat, chunk: Seq<u8>) -> Seq<char> {
    hex_wide(offset, 8) + "  "@ + hex_cells(chunk, 0, 8) + " "@ + hex_cells(chunk, 8, 16) + " |"@
        + chunk.map_values(|b: u8| sidebar_char(b)) + "|\n"@
}

/// Lines of the first `n` sixteen-byte chunks.
pub open spec fn dump_chunks(bytes: Seq<u8>, n: nat) -> Seq<char>
    decreases n,
{
    if n == 0 {
        Seq::empty()
    } else {
        let start: int = 16 * (n - 1);
        let end: int = if 16 * n < bytes.len() {
            (16 * n) as int
        } else {
            bytes.len() as int
        };
        dump_chunks(bytes, (n - 1) as nat) + dump_line(start as nat, bytes.subrange(start, end))
    }
}

/// The canonical dump: sixteen bytes per line.
pub open spec fn hex_dump(bytes: Seq<u8>) -> Seq<char> {
    dump_chunks(bytes, ((bytes.len() + 15) / 16) as nat)
}

fn push_cells(s: &mut String, chunk: &[u8], from: usize, to: usize)
    requires
        from <= to,
    ensures
        final(s)@ == old(s)@ + hex_cells(chunk@, from as int, to as int),
{
    let mut i = from;
    assert(hex_cells(chunk@, from as int, from as int) =~= Seq::<char>::empty());
    while i < to
        invariant
            from <= i <= to,
            s@ == old(s)@ + hex_cells(chunk@, from as int, i as int),
        decreases to - i,
    {
        let ghost before = s@;
        if i < chunk.len() {
            push_hex(s, chunk[i] as u64, 2);
            s.push(' ');
        } else {
            s.push_str("   ");
        }
        proof {
            reveal_strlit(" ");
            reveal_strlit("   ");
            assert(s@ =~= before + hex_cell(chunk@, i as int));
        }
        i = i + 1;
    }
}

fn push_dump_line(s: &mut String, offset: u64, chunk: &[u8])
    ensures
        final(s)@ == old(s)@ + dump_line(offset as nat, chunk@),
{
    let ghost start = s@;
    push_hex_wide(s, offset, 8);
    s.push_str("  ");
    push_cells(s, chunk, 0, 8);
    s.push(' ');
    push_cells(s, chunk, 8, 16);
    s.push_str(" |");
    let ghost mid = s@;
    let mut i: usize = 0;
    while i < chunk.len()
        invariant
            i <= chunk.len(),
            s@ == mid + chunk@.take(i as int).map_values(|b: u8| sidebar_char(b)),
        decreases chunk.len() - i,
    {
        let b = chunk[i];
        let c = if 32 <= b && b <= 126 {
            b as char
        } else {
            '.'
        };
        let ghost before = s@;
        s.push(c);
        proof {
            assert(chunk@.take(i + 1).map_values(|b: u8| sidebar_char(b)) =~= chunk@.take(
                i as int,
            ).map_values(|b: u8| sidebar_char(b)).push(sidebar_char(b)));
        }
        i = i + 1;
    }
    s.push_str("|\n");
    proof {
        reveal_strlit(" ");
        assert(chunk@.take(i as int) =~= chunk@);
        assert(s@ =~= start + dump_line(offset as nat, chunk@));
    }
}

/// Canonical hex dump: offset, sixteen hex bytes, and an ASCII sidebar per line.
pub fn generate_hex_dump(bytes: &[u8]) -> (r: String)
    ensures
        r@ == hex_dump(bytes@),
{
    let mut out = String::new();
    let mut start: usize = 0;
    let ghost mut n: nat = 0;
    while start < bytes.len()
        invariant
            start <= bytes.len(),
            start < bytes.len() ==> start == 16 * n,
            out@ == dump_chunks(bytes@, n),
            n == (start + 15) / 16,
        decreases bytes.len() - start,
    {
        let end = if bytes.len() - start > 16 {
            start + 16
        } else {
            bytes.len()
        };
        let mut chunk: Vec<u8> = Vec::new();
        let mut i = start;
        while i < end
            invariant
                start <= i <= end <= bytes.len(),
                chunk@ == bytes@.subrange(start as int, i as int),
            decreases end - i,
        {
            chunk.push(bytes[i]);
            proof {
                assert(chunk@ =~= bytes@.subrange(start as int, i + 1));
            }
            i = i + 1;
        }
        push_dump_line(&mut out, start as u64, chunk.as_slice());
        proof {
            n = n + 1;
        }
        start = end;
    }
    proof {
        assert(n == (bytes@.len() + 15) / 16);
    }
    out
}

// ---------------------------------------------------------------------------
// Cookies
// ---------------------------------------------------------------------------

/// The first `name=value` among the `;`-separated parts of a `Set-Cookie`
/// value, trimmed.
pub open spec fn first_cookie(parts: Seq<Seq<char>>) -> Option<(Seq<char>, Seq<char>)>
    decreases parts.len(),
{
    if parts.len() == 0 {
        None
    } else {
        let t = trim_seq(parts[0]);
        match first_index_of(t, '=') {
            Some(e) => Some(
                (trim_seq(t.subrange(0, e)), trim_seq(t.subrange(e + 1, t.len() as int))),
            ),
            None => first_cookie(parts.drop_first()),
        }
    }
}

/// Cookies set by the headers, in header order.
pub open spec fn cookies_of(headers: Seq<(Seq<char>, Seq<char>)>) -> Seq<(Seq<char>, Seq<char>)>
    decreases headers.len(),
{
    if headers.len() == 0 {
        Seq::empty()
    } else {
        let (name, value) = headers.last();
        let rest = cookies_of(headers.drop_last());
        if ascii_lowered(name) == "set-cookie"@ {
            match first_cookie(split_on(value, ';')) {
                Some(c) => rest.push(c),
                None => rest,
            }
        } else {
            rest
        }
    }
}

pub open spec fn header_pairs(v: Seq<(String, String)>) -> Seq<(Seq<char>, Seq<char>)> {
    v.map_values(|p: (String, String)| (p.0@, p.1@))
}

fn cookie_in(value: &str) -> (r: Option<(String, String)>)
    ensures
        match r {
            Some(c) => first_cookie(split_on(value@, ';')) == Some((c.0@, c.1@)),
            None => first_cookie(split_on(value@, ';')) is None,
        },
{
    let chars = chars_of(value);
    let parts = split_chars(&chars, ';');
    let ghost ps = views(parts@);
    let mut i: usize = 0;
    assert(ps.skip(0) =~= ps);
    while i < parts.len()
        invariant
            ps == views(parts@),
            ps == split_on(chars@, ';'),
            chars@ == value@,
            ps.len() == parts@.len(),
            i <= parts.len(),
            first_cookie(ps) == first_cookie(ps.skip(i as int)),
        decreases parts.len() - i,
    {
        let part = &parts[i];
        proof {
            assert(ps.skip(i as int)[0] == part@);
            assert(ps.skip(i as int).drop_first() =~= ps.skip(i + 1));
            assert(part@.subrange(0, part@.len() as int) =~= part@);
        }
        let (a, b) = trim_bounds(part, 0, part.len());
        let t = crate::text::slice_range(part, a, b);
        match find_char(&t, '=') {
            Some(e) => {
                let (ka, kb) = trim_bounds(&t, 0, e);
                let (va, vb) = trim_bounds(&t, e + 1, t.len());
                return Some((string_of_range(&t, ka, kb), string_of_range(&t, va, vb)));
            },
            None => {},
        }
        i = i + 1;
    }
    proof {
        assert(ps.skip(i as int).len() == 0);
    }
    None
}

/// Cookies set by `Set-Cookie` headers (name compared ignoring ASCII case):
/// the first `name=value` part of each.
pub fn parse_cookies_from_headers(headers: &Vec<(String, String)>) -> (r: Vec<(String, String)>)
    ensures
        header_pairs(r@) == cookies_of(header_pairs(headers@)),
{
    let ghost hs = header_pairs(headers@);
    let mut cookies: Vec<(String, String)> = Vec::new();
    let mut i: usize = 0;
    proof {
        reveal_strlit("set-cookie");
        assert(ascii_lowered("set-cookie"@) =~= "set-cookie"@);
    }
    assert(hs.take(0) =~= Seq::<(Seq<char>, Seq<char>)>::empty());
    assert(header_pairs(cookies@) =~= Seq::<(Seq<char>, Seq<char>)>::empty());
    while i < headers.len()
        invariant
            hs == header_pairs(headers@),
            hs.len() == headers@.len(),
            i <= headers.len(),
            header_pairs(cookies@) == cookies_of(hs.take(i as int)),
            ascii_lowered("set-cookie"@) == "set-cookie"@,
        decreases headers.len() - i,
    {
        let (name, value) = (&headers[i].0, &headers[i].1);
        proof {
            assert(hs.take(i + 1).drop_last() =~= hs.take(i as int));
            assert(hs.take(i + 1).last() == (name@, value@));
        }
        if eq_ignore_ascii_case(name.as_str(), "set-cookie") {
            match cookie_in(value.as_str()) {
                Some(c) => {
                    let ghost before = cookies@;
                    cookies.push(c);
                    proof {
                        assert(header_pairs(cookies@) =~= header_pairs(before).push((c.0@, c.1@)));
                    }
                },
                None => {},
            }
        }
        i = i + 1;
    }
    assert(hs.take(i as int) =~= hs);
    cookies
}

// ---------------------------------------------------------------------------
// Body preview
// ---------------------------------------------------------------------------

/// Characters of a response body shown in the preview.
pub const PREVIEW_CHARS: usize = 32000;

/// What `String::from_utf8_lossy` makes of some bytes: the text they
/// encode, each invalid sequence replaced by U+FFFD.
pub uninterp spec fn utf8_lossy_text(bytes: Seq<u8>) -> Seq<char>;

/// Decodes bytes with `String::from_utf8_lossy`; the text is named
/// `utf8_lossy_text`.
#[verifier::external_body]
fn utf8_lossy(bytes: &[u8]) -> (s: String)
    ensures
        s@ == utf8_lossy_text(bytes@),
{
    String::from_utf8_lossy(bytes).into_owned()
}

pub open spec fn truncation_notice() -> Seq<char> {
    "\n\n[Preview truncated. Copy response for the complete retained body.]"@
}

/// The preview of a body: its text, pretty-printed when the body is small
/// and is JSON, cut after `PREVIEW_CHARS` characters with a notice.
pub open spec fn preview_text(bytes: Seq<u8>) -> Seq<char> {
    let raw = utf8_lossy_text(bytes);
    let formatted = if bytes.len() <= PREVIEW_CHARS {
        match json_pretty_text(raw) {
            Some(p) => p,
            None => raw,
        }
    } else {
        raw
    };
    if formatted.len() > PREVIEW_CHARS {
        formatted.take(PREVIEW_CHARS as int) + truncation_notice()
    } else {
        formatted
    }
}

/// The text shown for a response body.
pub fn preview(bytes: &[u8]) -> (r: String)
    ensures
        r@ == preview_text(bytes@),
{
    let raw = utf8_lossy(bytes);
    let formatted = if bytes.len() <= PREVIEW_CHARS {
        match pretty_print(raw.as_str()) {
            Ok(p) => p,
            Err(_) => raw,
        }
    } else {
        raw
    };
    let chars = chars_of(formatted.as_str());
    if chars.len() > PREVIEW_CHARS {
        let mut out = string_of_range(&chars, 0, PREVIEW_CHARS);
        out.push_str("\n\n[Preview truncated. Copy response for the complete retained body.]");
        assert(chars@.subrange(0, PREVIEW_CHARS as int) == chars@.take(PREVIEW_CHARS as int));
        out
    } else {
        formatted
    }
}

// ---------------------------------------------------------------------------
// Base64
// ---------------------------------------------------------------------------

/// Digit `k` (below 64) of the standard base64 alphabet.
pub open spec fn b64_digit(k: int) -> char {
    if k < 26 {
        (65 + k) as char
    } else if k < 52 {
        (97 + k - 26) as char
    } else if k < 62 {
        (48 + k - 52) as char
    } else if k == 62 {
        '+'
    } else {
        '/'
    }
}

/// Standard base64 with `=` padding: each group of three bytes gives four
/// digits of six bits each.
pub open spec fn base64(input: Seq<u8>) -> Seq<char>
    decreases input.len(),
{
    if input.len() == 0 {
        Seq::empty()
    } else {
        let b0 = input[0] as int;
        let b1 = if input.len() > 1 { input[1] as int } else { 0 };
        let b2 = if input.len() > 2 { input[2] as int } else { 0 };
        let group = seq![
            b64_digit(b0 / 4),
            b64_digit((b0 % 4) * 16 + b1 / 16),
            if input.len() > 1 { b64_digit((b1 % 16) * 4 + b2 / 64) } else { '=' },
            if input.len() > 2 { b64_digit(b2 % 64) } else { '=' },
        ];
        if input.len() > 3 {
            group + base64(input.skip(3))
        } else {
            group
        }
    }
}

fn b64_char(k: u8) -> (c: char)
    requires
        k < 64,
    ensures
        c == b64_digit(k as int),
{
    if k < 26 {
        (65 + k) as char
    } else if k < 52 {
        (97 + k - 26) as char
    } else if k < 62 {
        (48 + k - 52) as char
    } else if k == 62 {
        '+'
    } else {
        '/'
    }
}

/// Base64-encodes bytes (used for Basic authentication).
pub fn simple_base64(input: &[u8]) -> (r: String)
    ensures
        r@ == base64(input@),
{
    let mut out = String::new();
    let n = input.len();
    let mut i: usize = 0;
    assert(input@.skip(0) =~= input@);
    while i < n
        invariant
            i <= n == input@.len(),
            out@ + base64(input@.skip(i as int)) == base64(input@),
        decreases n - i,
    {
        let ghost rest = input@.skip(i as int);
        let b0 = input[i];
        let b1: u8 = if n - i > 1 { input[i + 1] } else { 0 };
        let b2: u8 = if n - i > 2 { input[i + 2] } else { 0 };
        let ghost before = out@;
        out.push(b64_char(b0 / 4));
        out.push(b64_char((b0 % 4) * 16 + b1 / 16));
        if n - i > 1 {
            out.push(b64_char((b1 % 16) * 4 + b2 / 64));
        } else {
            out.push('=');
        }
        if n - i > 2 {
            out.push(b64_char(b2 % 64));
        } else {
            out.push('=');
        }
        proof {
            assert(rest[0] == b0);
            if rest.len() > 1 {
                assert(rest[1] == b1);
            }
            if rest.len() > 2 {
                assert(rest[2] == b2);
            }
            let g = out@.subrange(before.len() as int, out@.len() as int);
            assert(out@ == before + g);
            if rest.len() > 3 {
                assert(rest.skip(3) =~= input@.skip(i + 3));
            }
        }
        if n - i > 3 {
            i = i + 3;
        } else {
            i = n;
            assert(input@.skip(n as int) =~= Seq::<u8>::empty());
        }
    }
    assert(input@.skip(i as int) =~= Seq::<u8>::empty());
    out
}

} // verus!
