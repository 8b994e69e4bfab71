//! Parsing of `{{name}}` template references.
//!
//! Positions and ranges count characters of the template.
use vstd::prelude::*;
use std::ops::Range;
use crate::text::{
    chars_of, is_alphanumeric, push_range, slice_range, string_of, trim_bounds, trim_seq,
    unicode_alphanumeric,
};

verus! {

/// Reference written `{{name}}` in a template, with its position.
#[derive(Debug)]
pub struct VariableReference {
    pub name: String,
    pub range: Range<usize>,
    pub escaped: bool,
    pub valid: bool,
}

/// Mathematical model of a reference.
pub ghost struct ReferenceView {
    pub name: Seq<char>,
    pub start: int,
    pub end: int,
    pub escaped: bool,
    pub valid: bool,
}

impl View for VariableReference {
    type V = ReferenceView;

    open spec fn view(&self) -> ReferenceView {
        ReferenceView {
            name: self.name@,
            start: self.range.start as int,
            end: self.range.end as int,
            escaped: self.escaped,
            valid: self.valid,
        }
    }
}

impl VariableReference {
    pub fn copy(&self) -> (r: Self)
        ensures
            r@ == self@,
    {
        VariableReference {
            name: self.name.clone(),
            range: Range { start: self.range.start, end: self.range.end },
            escaped: self.escaped,
            valid: self.valid,
        }
    }
}

#[derive(Debug, Clone, Copy, PartialEq, Eq, Structural)]
pub enum VariableDiagnosticKind {
    InvalidName,
    UnterminatedReference,
    UnresolvedReference,
    CyclicReference,
    MaximumDepthExceeded,
}

/// Problem found while parsing or resolving a template.
#[derive(Debug)]
pub struct VariableDiagnostic {
    pub kind: VariableDiagnosticKind,
    pub range: Range<usize>,
    pub message: String,
}

pub ghost struct DiagnosticView {
    pub kind: VariableDiagnosticKind,
    pub start: int,
    pub end: int,
    pub message: Seq<char>,
}

impl View for VariableDiagnostic {
    type V = DiagnosticView;

    open spec fn view(&self) -> DiagnosticView {
        DiagnosticView {
            kind: self.kind,
            start: self.range.start as int,
            end: self.range.end as int,
            message: self.message@,
        }
    }
}

impl VariableDiagnostic {
    pub fn copy(&self) -> (r: Self)
        ensures
            r@ == self@,
    {
        VariableDiagnostic {
            kind: self.kind,
            range: Range { start: self.range.start, end: self.range.end },
            message: self.message.clone(),
        }
    }
}

/// References and diagnostics of one template, in order of appearance.
#[derive(Debug)]
pub struct ParsedTemplate {
    pub references: Vec<VariableReference>,
    pub diagnostics: Vec<VariableDiagnostic>,
}

pub open spec fn ref_views(v: Seq<VariableReference>) -> Seq<ReferenceView> {
    v.map_values(|r: VariableReference| r@)
}

pub open spec fn diag_views(v: Seq<VariableDiagnostic>) -> Seq<DiagnosticView> {
    v.map_values(|d: VariableDiagnostic| d@)
}

impl View for ParsedTemplate {
    type V = (Seq<ReferenceView>, Seq<DiagnosticView>);

    open spec fn view(&self) -> (Seq<ReferenceView>, Seq<DiagnosticView>) {
        (ref_views(self.references@), diag_views(self.diagnostics@))
    }
}

// ---------------------------------------------------------------------------
// Names
// ---------------------------------------------------------------------------

pub open spec fn name_start_char(c: char) -> bool {
    unicode_alphanumeric(c) || c == '_' || c == '$'
}

pub open spec fn name_char(c: char) -> bool {
    unicode_alphanumeric(c) || c == '_' || c == '-' || c == '.' || c == ':' || c == '$'
}

/// Names start with a letter, a digit, `_` or `$`, and go on with letters,
/// digits and the separators `_ - . : $` used by dynamic, vault and
/// nested-object references.
pub open spec fn valid_name(name: Seq<char>) -> bool {
    &&& name.len() > 0
    &&& name_start_char(name[0])
    &&& forall|i: int| 1 <= i < name.len() ==> name_char(#[trigger] name[i])
}

pub fn valid_name_chars(name: &[char]) -> (r: bool)
    ensures
        r == valid_name(name@),
{
    if name.len() == 0 {
        return false;
    }
    let first = name[0];
    if !(is_alphanumeric(first) || first == '_' || first == '$') {
        return false;
    }
    let mut i: usize = 1;
    while i < name.len()
        invariant
            1 <= i <= name.len(),
            forall|j: int| 1 <= j < i ==> name_char(#[trigger] name@[j]),
        decreases name.len() - i,
    {
        let c = name[i];
        if !(is_alphanumeric(c) || c == '_' || c == '-' || c == '.' || c == ':' || c == '$') {
            return false;
        }
        i = i + 1;
    }
    true
}

/// Whether `name` is a valid variable name (see `valid_name`).
pub fn is_valid_variable_name(name: &str) -> (r: bool)
    ensures
        r == valid_name(name@),
{
    let v = chars_of(name);
    valid_name_chars(&v)
}

// ---------------------------------------------------------------------------
// Parsing
// ---------------------------------------------------------------------------

/// Number of backslashes immediately before index `i`.
pub open spec fn backslashes_before(s: Seq<char>, i: int) -> nat
    decreases i,
{
    if 0 < i <= s.len() && s[i - 1] == '\\' {
        1 + backslashes_before(s, i - 1)
    } else {
        0
    }
}

/// Index of the first `}}` at or after `c`, or the last index when there is none.
pub open spec fn close_from(s: Seq<char>, c: int) -> int
    decreases s.len() - c,
{
    if 0 <= c && c + 1 < s.len() && !(s[c] == '}' && s[c + 1] == '}') {
        close_from(s, c + 1)
    } else {
        c
    }
}

pub proof fn lemma_close_from(s: Seq<char>, c: int)
    requires
        0 <= c,
    ensures
        close_from(s, c) >= c,
        close_from(s, c) + 1 < s.len() ==> s[close_from(s, c)] == '}' && s[close_from(s, c) + 1]
            == '}',
    decreases s.len() - c,
{
    if c + 1 < s.len() && !(s[c] == '}' && s[c + 1] == '}') {
        lemma_close_from(s, c + 1);
    }
}

pub open spec fn unterminated_message() -> Seq<char> {
    "Variable reference is missing closing braces"@
}

pub open spec fn invalid_name_message(name: Seq<char>) -> Seq<char> {
    if name.len() == 0 {
        "Variable name cannot be empty"@
    } else {
        "Variable name '"@ + name + "' contains unsupported characters"@
    }
}

/// References and diagnostics found scanning `s` from `index`.
pub open spec fn parse_from(s: Seq<char>, index: int) -> (Seq<ReferenceView>, Seq<DiagnosticView>)
    decreases s.len() - index,
{
    if index < 0 || index + 1 >= s.len() {
        (Seq::empty(), Seq::empty())
    } else if !(s[index] == '{' && s[index + 1] == '{') {
        parse_from(s, index + 1)
    } else {
        let c = close_from(s, index + 2);
        if c + 1 >= s.len() {
            (
                Seq::empty(),
                seq![
                    DiagnosticView {
                        kind: VariableDiagnosticKind::UnterminatedReference,
                        start: index,
                        end: s.len() as int,
                        message: unterminated_message(),
                    },
                ],
            )
        } else {
            proof {
                lemma_close_from(s, index + 2);
            }
            let name = trim_seq(s.subrange(index + 2, c));
            let r = ReferenceView {
                name: name,
                start: index,
                end: c + 2,
                escaped: backslashes_before(s, index) % 2 == 1,
                valid: valid_name(name),
            };
            let rest = parse_from(s, c + 2);
            let d: Seq<DiagnosticView> = if !r.valid && !r.escaped {
                seq![
                    DiagnosticView {
                        kind: VariableDiagnosticKind::InvalidName,
                        start: index,
                        end: c + 2,
                        message: invalid_name_message(name),
                    },
                ]
            } else {
                Seq::empty()
            };
            (seq![r] + rest.0, d + rest.1)
        }
    }
}

/// What `parse_template` finds in a template.
pub open spec fn parse_spec(s: Seq<char>) -> (Seq<ReferenceView>, Seq<DiagnosticView>) {
    parse_from(s, 0)
}

/// References in order of appearance, none starting before `lo`, each
/// ending where the next may start; an escaped one has its backslash after `lo`.
pub open spec fn refs_from(s: Seq<char>, refs: Seq<ReferenceView>, lo: int) -> bool
    decreases refs.len(),
{
    if refs.len() == 0 {
        true
    } else {
        let r = refs[0];
        &&& lo <= r.start
        &&& r.start + 4 <= r.end <= s.len()
        &&& r.escaped ==> lo + 1 <= r.start
        &&& refs_from(s, refs.drop_first(), r.end)
    }
}

pub proof fn lemma_parse_in_order(s: Seq<char>, index: int, lo: int)
    requires
        0 <= lo <= index,
        lo == 0 || s[lo - 1] == '}',
        lo <= s.len(),
    ensures
        refs_from(s, parse_from(s, index).0, lo),
    decreases s.len() - index,
{
    if index < 0 || index + 1 >= s.len() {
    } else if !(s[index] == '{' && s[index + 1] == '{') {
        lemma_parse_in_order(s, index + 1, lo);
    } else {
        let c = close_from(s, index + 2);
        lemma_close_from(s, index + 2);
        if c + 1 >= s.len() {
        } else {
            lemma_parse_in_order(s, c + 2, c + 2);
            let refs = parse_from(s, index).0;
            assert(refs.drop_first() =~= parse_from(s, c + 2).0);
            if backslashes_before(s, index) % 2 == 1 {
                assert(index > 0 && s[index - 1] == '\\');
            }
        }
    }
}

fn count_backslashes(s: &[char], i: usize) -> (r: usize)
    requires
        i <= s.len(),
    ensures
        r == backslashes_before(s@, i as int),
        r <= i,
    decreases i,
{
    if i > 0 && s[i - 1] == '\\' {
        1 + count_backslashes(s, i - 1)
    } else {
        0
    }
}

pub fn find_close(s: &[char], c: usize) -> (r: usize)
    ensures
        r == close_from(s@, c as int),
    decreases s.len() - c,
{
    if c < s.len() && s.len() - c > 1 && !(s[c] == '}' && s[c + 1] == '}') {
        find_close(s, c + 1)
    } else {
        c
    }
}

fn invalid_message(name: &[char]) -> (m: String)
    ensures
        m@ == invalid_name_message(name@),
{
    if name.len() == 0 {
        "Variable name cannot be empty".to_owned()
    } else {
        let mut m = "Variable name '".to_owned();
        push_range(&mut m, name, 0, name.len());
        m.push_str("' contains unsupported characters");
        assert(name@.subrange(0, name@.len() as int) =~= name@);
        m
    }
}

proof fn lemma_views_push_ref(v: Seq<VariableReference>, x: VariableReference)
    ensures
        ref_views(v.push(x)) == ref_views(v).push(x@),
{
    assert(ref_views(v.push(x)) =~= ref_views(v).push(x@));
}

proof fn lemma_views_push_diag(v: Seq<VariableDiagnostic>, x: VariableDiagnostic)
    ensures
        diag_views(v.push(x)) == diag_views(v).push(x@),
{
    assert(diag_views(v.push(x)) =~= diag_views(v).push(x@));
}

/// Parses the template given as characters.
pub fn parse_chars(s: &[char]) -> (parsed: ParsedTemplate)
    ensures
        parsed@ == parse_spec(s@),
{
    let mut refs: Vec<VariableReference> = Vec::new();
    let mut diags: Vec<VariableDiagnostic> = Vec::new();
    let mut index: usize = 0;
    assert(ref_views(refs@) =~= Seq::<ReferenceView>::empty());
    assert(diag_views(diags@) =~= Seq::<DiagnosticView>::empty());
    loop
        invariant_except_break
            index <= s.len(),
            (ref_views(refs@) + parse_from(s@, index as int).0, diag_views(diags@) + parse_from(
                s@,
                index as int,
            ).1) == parse_spec(s@),
        ensures
            (ref_views(refs@), diag_views(diags@)) == parse_spec(s@),
        decreases s.len() - index,
    {
        if index >= s.len() || s.len() - index < 2 {
            assert(ref_views(refs@) + Seq::<ReferenceView>::empty() =~= ref_views(refs@));
            assert(diag_views(diags@) + Seq::<DiagnosticView>::empty() =~= diag_views(diags@));
            break ;
        }
        if !(s[index] == '{' && s[index + 1] == '{') {
            index = index + 1;
            continue ;
        }
        let slashes = count_backslashes(s, index);
        let escaped = slashes % 2 == 1;
        let close = find_close(s, index + 2);
        proof {
            lemma_close_from(s@, index + 2);
        }
        if close >= s.len() || s.len() - close < 2 {
            let ghost before = diags@;
            diags.push(
                VariableDiagnostic {
                    kind: VariableDiagnosticKind::UnterminatedReference,
                    range: Range { start: index, end: s.len() },
                    message: "Variable reference is missing closing braces".to_owned(),
                },
            );
            proof {
                lemma_views_push_diag(before, diags@.last());
                assert(ref_views(refs@) + Seq::<ReferenceView>::empty() =~= ref_views(refs@));
            }
            break ;
        }
        let end = close + 2;
        let (a, b) = trim_bounds(s, index + 2, close);
        let name_chars = slice_range(s, a, b);
        let valid = valid_name_chars(&name_chars);
        let ghost rest = parse_from(s@, end as int);
        if !valid && !escaped {
            let ghost before = diags@;
            let message = invalid_message(&name_chars);
            diags.push(
                VariableDiagnostic {
                    kind: VariableDiagnosticKind::InvalidName,
                    range: Range { start: index, end: end },
                    message: message,
                },
            );
            proof {
                lemma_views_push_diag(before, diags@.last());
                assert(diag_views(before) + parse_from(s@, index as int).1 =~= diag_views(diags@)
                    + rest.1);
            }
        } else {
            assert(diag_views(diags@) + parse_from(s@, index as int).1 =~= diag_views(diags@)
                + rest.1);
        }
        let ghost before_refs = refs@;
        refs.push(
            VariableReference {
                name: string_of(&name_chars),
                range: Range { start: index, end: end },
                escaped: escaped,
                valid: valid,
            },
        );
        proof {
            lemma_views_push_ref(before_refs, refs@.last());
            assert(ref_views(before_refs) + parse_from(s@, index as int).0 =~= ref_views(refs@)
                + rest.0);
        }
        index = end;
    }
    ParsedTemplate { references: refs, diagnostics: diags }
}

/// Parses `{{name}}` references without interpreting their values.
///
/// A reference preceded by an odd number of backslashes is escaped. A
/// reference whose name is not valid is reported, unless it is escaped. An
/// opening `{{` without closing braces is reported and ends the scan.
pub fn parse_template(input: &str) -> (parsed: ParsedTemplate)
    ensures
        parsed@ == parse_spec(input@),
{
    let s = chars_of(input);
    parse_chars(&s)
}


/// Whether `s` has `{{` anywhere, that is, whether it may hold a reference.
pub open spec fn has_open_braces(s: Seq<char>) -> bool {
    exists|i: int| 0 <= i && i + 1 < s.len() && #[trigger] s[i] == '{' && s[i + 1] == '{'
}

/// Text without `{{` holds no references and gives no diagnostics.
pub proof fn lemma_parse_plain(s: Seq<char>, index: int)
    requires
        !has_open_braces(s),
    ensures
        parse_from(s, index).0.len() == 0,
        parse_from(s, index).1.len() == 0,
    decreases s.len() - index,
{
    if index < 0 || index + 1 >= s.len() {
    } else {
        assert(!(s[index] == '{' && s[index + 1] == '{'));
        lemma_parse_plain(s, index + 1);
    }
}

} // verus!
