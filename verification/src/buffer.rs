//! Line-indexed text buffer with a cursor, a selection, undo history,
//! bracket matching, search, and JSON syntax tokens.
//!
//! Columns count bytes of UTF-8, as offsets into a line's text do; bracket
//! matching and the JSON tokens count characters.
use vstd::prelude::*;
use crate::resolver::join_seq;
use crate::text::{
    chars_of, extend_range, find_from, lemma_lines_nonempty, lemma_nl_index, lemma_views_edit,
    lines_seq, nl_index, occurs_at, slice_range, split_lines, string_of, strip_cr, views, split_on,
    lemma_char_index, lemma_char_index_is,
};

verus! {

/// 0-indexed position within a text buffer.
#[derive(Debug, Clone, Copy, PartialEq, Eq, Structural, PartialOrd, Ord, Default)]
pub struct TextPosition {
    pub line: usize,
    pub column: usize,
}

impl TextPosition {
    pub fn new(line: usize, column: usize) -> (r: Self)
        ensures
            r == (TextPosition { line, column }),
    {
        TextPosition { line, column }
    }
}

/// `a` comes no later than `b`: by line, then by column.
pub open spec fn pos_le(a: TextPosition, b: TextPosition) -> bool {
    a.line < b.line || (a.line == b.line && a.column <= b.column)
}

fn position_le(a: TextPosition, b: TextPosition) -> (r: bool)
    ensures
        r == pos_le(a, b),
{
    a.line < b.line || (a.line == b.line && a.column <= b.column)
}

/// Selection spanning an anchor position to a head (active cursor) position.
#[derive(Debug, Clone, Copy, PartialEq, Eq, Structural)]
pub struct TextSelection {
    pub anchor: TextPosition,
    pub head: TextPosition,
}

pub open spec fn sel_start(s: TextSelection) -> TextPosition {
    if pos_le(s.anchor, s.head) {
        s.anchor
    } else {
        s.head
    }
}

pub open spec fn sel_end(s: TextSelection) -> TextPosition {
    if pos_le(s.anchor, s.head) {
        s.head
    } else {
        s.anchor
    }
}

impl TextSelection {
    pub fn new(anchor: TextPosition, head: TextPosition) -> (r: Self)
        ensures
            r == (TextSelection { anchor, head }),
    {
        TextSelection { anchor, head }
    }

    /// The earlier of the two ends.
    pub fn start(&self) -> (r: TextPosition)
        ensures
            r == sel_start(*self),
    {
        if position_le(self.anchor, self.head) {
            self.anchor
        } else {
            self.head
        }
    }

    /// The later of the two ends.
    pub fn end(&self) -> (r: TextPosition)
        ensures
            r == sel_end(*self),
    {
        if position_le(self.anchor, self.head) {
            self.head
        } else {
            self.anchor
        }
    }

    pub fn is_empty(&self) -> (r: bool)
        ensures
            r == (self.anchor == self.head),
    {
        self.anchor.line == self.head.line && self.anchor.column == self.head.column
    }
}

/// Atomic edit action stored in the undo/redo history.
#[derive(Debug, Clone, PartialEq)]
pub enum EditAction {
    Insert { pos: TextPosition, text: String },
    Delete { start: TextPosition, end: TextPosition, deleted_text: String },
}

pub ghost enum ActionView {
    Insert { pos: TextPosition, text: Seq<char> },
    Delete { start: TextPosition, end: TextPosition, deleted: Seq<char> },
}

impl View for EditAction {
    type V = ActionView;

    open spec fn view(&self) -> ActionView {
        match self {
            EditAction::Insert { pos, text } => ActionView::Insert { pos: *pos, text: text@ },
            EditAction::Delete { start, end, deleted_text } => ActionView::Delete {
                start: *start,
                end: *end,
                deleted: deleted_text@,
            },
        }
    }
}

pub open spec fn action_views(v: Seq<EditAction>) -> Seq<ActionView> {
    v.map_values(|a: EditAction| a@)
}

// ---------------------------------------------------------------------------
// Byte columns
// ---------------------------------------------------------------------------

/// How many bytes UTF-8 spends on `c`.
pub open spec fn clen(c: char) -> nat {
    if (c as u32) < 0x80 {
        1
    } else if (c as u32) < 0x800 {
        2
    } else if (c as u32) < 0x10000 {
        3
    } else {
        4
    }
}

/// The UTF-8 length of a text, in bytes.
pub open spec fn blen(s: Seq<char>) -> nat
    decreases s.len(),
{
    if s.len() == 0 {
        0
    } else {
        clen(s[0]) + blen(s.drop_first())
    }
}

/// How many whole characters of `s` lie within its first `b` bytes: the
/// character index of byte offset `b`.
pub open spec fn cidx(s: Seq<char>, b: int) -> int
    decreases s.len(),
{
    if s.len() == 0 || b < clen(s[0]) {
        0
    } else {
        1 + cidx(s.drop_first(), b - clen(s[0]))
    }
}

/// Byte offset `b` falls between two characters of `s` (or at an end).
pub open spec fn on_boundary(s: Seq<char>, b: int) -> bool {
    0 <= b && blen(s.take(cidx(s, b))) == b
}

pub proof fn lemma_blen_add(a: Seq<char>, b: Seq<char>)
    ensures
        blen(a + b) == blen(a) + blen(b),
    decreases a.len(),
{
    if a.len() > 0 {
        lemma_blen_add(a.drop_first(), b);
        assert((a + b).drop_first() =~= a.drop_first() + b);
    } else {
        assert(a + b =~= b);
    }
}

pub proof fn lemma_cidx_after(a: Seq<char>, b: Seq<char>, x: int)
    requires
        x >= 0,
    ensures
        cidx(a + b, blen(a) + x) == a.len() + cidx(b, x),
    decreases a.len(),
{
    if a.len() > 0 {
        lemma_cidx_after(a.drop_first(), b, x);
        assert((a + b).drop_first() =~= a.drop_first() + b);
        assert((a + b)[0] == a[0]);
    } else {
        assert(a + b =~= b);
    }
}

pub proof fn lemma_cidx_bounds(s: Seq<char>, b: int)
    ensures
        0 <= cidx(s, b) <= s.len(),
        b < 0 ==> cidx(s, b) == 0,
    decreases s.len(),
{
    if s.len() > 0 && b >= clen(s[0]) {
        lemma_cidx_bounds(s.drop_first(), b - clen(s[0]));
    }
}

/// The start of `s` up to byte `b`, as characters, and its byte length.
pub proof fn lemma_cidx_prefix(s: Seq<char>, k: int)
    requires
        0 <= k <= s.len(),
    ensures
        cidx(s, blen(s.take(k)) as int) == k,
        on_boundary(s, blen(s.take(k)) as int),
        blen(s) == blen(s.take(k)) + blen(s.skip(k)),
{
    assert(s =~= s.take(k) + s.skip(k));
    lemma_cidx_after(s.take(k), s.skip(k), 0);
    lemma_blen_add(s.take(k), s.skip(k));
    if s.skip(k).len() > 0 {
        assert(0 < clen(s.skip(k)[0]));
    }
}

/// At a boundary, the characters before it take exactly `b` bytes.
pub proof fn lemma_boundary_le(s: Seq<char>, b: int)
    requires
        on_boundary(s, b),
    ensures
        b <= blen(s),
        0 <= cidx(s, b) <= s.len(),
{
    lemma_cidx_bounds(s, b);
    lemma_cidx_prefix(s, cidx(s, b));
}

/// Splicing `t` in at character `k`: the byte offsets of the splice.
pub proof fn lemma_splice(a: Seq<char>, t: Seq<char>, c: Seq<char>)
    ensures
        cidx(a + t + c, blen(a) as int) == a.len(),
        cidx(a + t + c, (blen(a) + blen(t)) as int) == a.len() + t.len(),
        on_boundary(a + t + c, blen(a) as int),
        on_boundary(a + t + c, (blen(a) + blen(t)) as int),
        blen(a + t + c) == blen(a) + blen(t) + blen(c),
{
    let s = a + t + c;
    assert(s.take(a.len() as int) =~= a);
    assert(s.take((a.len() + t.len()) as int) =~= a + t);
    lemma_blen_add(a, t);
    lemma_blen_add(a + t, c);
    lemma_cidx_prefix(s, a.len() as int);
    lemma_cidx_prefix(s, (a.len() + t.len()) as int);
}

/// The UTF-8 length of `c`.
pub fn char_len(c: char) -> (n: usize)
    ensures
        n == clen(c),
{
    let u = c as u32;
    if u < 0x80 {
        1
    } else if u < 0x800 {
        2
    } else if u < 0x10000 {
        3
    } else {
        4
    }
}

proof fn lemma_skip_step(s: Seq<char>, i: int)
    requires
        0 <= i < s.len(),
    ensures
        s.skip(i).len() > 0,
        s.skip(i)[0] == s[i],
        s.skip(i).drop_first() =~= s.skip(i + 1),
        s.take(i + 1) =~= s.take(i).push(s[i]),
{
}

proof fn lemma_blen_push(a: Seq<char>, c: char)
    ensures
        blen(a.push(c)) == blen(a) + clen(c),
{
    lemma_blen_add(a, seq![c]);
    assert(a.push(c) =~= a + seq![c]);
    assert(seq![c].drop_first() =~= Seq::<char>::empty());
    assert(blen(Seq::<char>::empty()) == 0);
    assert(blen(seq![c]) == clen(c) + blen(seq![c].drop_first()));
}

/// The character index of byte offset `b` in `line`.
pub fn char_index(line: &[char], b: usize) -> (k: usize)
    ensures
        k == cidx(line@, b as int),
        k <= line@.len(),
{
    let mut i: usize = 0;
    let mut rest: usize = b;
    assert(line@.skip(0) =~= line@);
    while i < line.len() && char_len(line[i]) <= rest
        invariant
            i <= line@.len(),
            rest <= b,
            cidx(line@, b as int) == i + cidx(line@.skip(i as int), rest as int),
        decreases line@.len() - i,
    {
        proof {
            lemma_skip_step(line@, i as int);
        }
        rest = rest - char_len(line[i]);
        i = i + 1;
    }
    proof {
        if i < line@.len() {
            lemma_skip_step(line@, i as int);
        }
    }
    i
}

/// The byte length of `line`, or `cap` when it is longer.
pub fn byte_len_capped(line: &[char], cap: usize) -> (n: usize)
    ensures
        n == if blen(line@) < cap { blen(line@) } else { cap as nat },
{
    let mut i: usize = 0;
    let mut acc: usize = 0;
    while i < line.len()
        invariant
            i <= line@.len(),
            acc == blen(line@.take(i as int)),
            acc <= cap,
        decreases line@.len() - i,
    {
        let w = char_len(line[i]);
        proof {
            lemma_skip_step(line@, i as int);
            lemma_blen_push(line@.take(i as int), line@[i as int]);
        }
        if w > cap - acc {
            proof {
                lemma_cidx_prefix(line@, i + 1);
            }
            return cap;
        }
        acc = acc + w;
        i = i + 1;
    }
    assert(line@.take(i as int) =~= line@);
    if acc == cap {
        cap
    } else {
        acc
    }
}

proof fn lemma_cidx_prefix_le(s: Seq<char>, b: int)
    requires
        b >= 0,
    ensures
        blen(s.take(cidx(s, b))) <= b,
    decreases s.len(),
{
    if s.len() > 0 && b >= clen(s[0]) {
        let k = cidx(s.drop_first(), b - clen(s[0]));
        lemma_cidx_prefix_le(s.drop_first(), b - clen(s[0]));
        lemma_cidx_bounds(s.drop_first(), b - clen(s[0]));
        let x = s.take(1 + k);
        assert(x[0] == s[0]);
        assert(x.drop_first() =~= s.drop_first().take(k));
    } else {
        assert(s.take(cidx(s, b)) =~= Seq::<char>::empty());
    }
}

/// Whether the byte length of `t` is at most `cap`.
pub fn fits_bytes(t: &[char], cap: usize) -> (r: bool)
    ensures
        r == (blen(t@) <= cap),
{
    let mut i: usize = 0;
    let mut acc: usize = 0;
    while i < t.len()
        invariant
            i <= t@.len(),
            acc == blen(t@.take(i as int)),
            acc <= cap,
        decreases t@.len() - i,
    {
        let w = char_len(t[i]);
        proof {
            lemma_skip_step(t@, i as int);
            lemma_blen_push(t@.take(i as int), t@[i as int]);
        }
        if w > cap - acc {
            proof {
                lemma_cidx_prefix(t@, i + 1);
            }
            return false;
        }
        acc = acc + w;
        i = i + 1;
    }
    assert(t@.take(i as int) =~= t@);
    true
}

/// The byte length of the first `k` characters of `line`.
pub fn prefix_bytes(line: &[char], k: usize) -> (n: usize)
    requires
        k <= line@.len(),
        blen(line@) <= usize::MAX,
    ensures
        n == blen(line@.take(k as int)),
{
    let mut i: usize = 0;
    let mut acc: usize = 0;
    while i < k
        invariant
            i <= k <= line@.len(),
            blen(line@) <= usize::MAX,
            acc == blen(line@.take(i as int)),
        decreases k - i,
    {
        proof {
            lemma_skip_step(line@, i as int);
            lemma_blen_push(line@.take(i as int), line@[i as int]);
            lemma_cidx_prefix(line@, i + 1);
        }
        acc = acc + char_len(line[i]);
        i = i + 1;
    }
    acc
}

/// The byte length of a text, added to `base`.
pub fn bytes_after(base: usize, t: &[char]) -> (n: usize)
    requires
        base + blen(t@) <= usize::MAX,
    ensures
        n == base + blen(t@),
{
    let mut i: usize = 0;
    let mut acc: usize = base;
    while i < t.len()
        invariant
            i <= t@.len(),
            base + blen(t@) <= usize::MAX,
            acc == base + blen(t@.take(i as int)),
        decreases t@.len() - i,
    {
        proof {
            lemma_skip_step(t@, i as int);
            lemma_blen_push(t@.take(i as int), t@[i as int]);
            lemma_cidx_prefix(t@, i + 1);
        }
        acc = acc + char_len(t[i]);
        i = i + 1;
    }
    assert(t@.take(i as int) =~= t@);
    acc
}

// ---------------------------------------------------------------------------
// The model
// ---------------------------------------------------------------------------

/// What a buffer holds: its lines, cursor, selection and history.
pub ghost struct BufferView {
    pub lines: Seq<Seq<char>>,
    pub cursor: TextPosition,
    pub selection: Option<TextSelection>,
    pub undo: Seq<ActionView>,
    pub redo: Seq<ActionView>,
}

/// A position inside `lines` where text can be cut or inserted: on a line,
/// at a byte offset between two of its characters (or at an end).
pub open spec fn valid_pos(lines: Seq<Seq<char>>, p: TextPosition) -> bool {
    p.line < lines.len() && on_boundary(lines[p.line as int], p.column as int)
}

/// The text of `lines`, joined with line feeds.
pub open spec fn join_lines(lines: Seq<Seq<char>>) -> Seq<char> {
    join_seq(lines, seq!['\n'])
}

/// The characters of `line` before byte offset `b`.
pub open spec fn before_byte(line: Seq<char>, b: int) -> Seq<char> {
    line.subrange(0, cidx(line, b))
}

/// The characters of `line` from byte offset `b` on.
pub open spec fn from_byte(line: Seq<char>, b: int) -> Seq<char> {
    line.subrange(cidx(line, b), line.len() as int)
}

/// `lines` without the text from `s` to `e`.
pub open spec fn delete_range(lines: Seq<Seq<char>>, s: TextPosition, e: TextPosition) -> Seq<Seq<char>> {
    let first = lines[s.line as int];
    let last = lines[e.line as int];
    if s.line == e.line {
        lines.update(s.line as int, before_byte(first, s.column as int) + from_byte(first, e.column as int))
    } else {
        lines.subrange(0, s.line as int).push(
            before_byte(first, s.column as int) + from_byte(last, e.column as int),
        ) + lines.subrange(e.line + 1, lines.len() as int)
    }
}

/// The text from `s` to `e`, lines joined with line feeds.
pub open spec fn extract_range(lines: Seq<Seq<char>>, s: TextPosition, e: TextPosition) -> Seq<char> {
    let first = lines[s.line as int];
    let last = lines[e.line as int];
    if s.line == e.line {
        first.subrange(cidx(first, s.column as int), cidx(first, e.column as int))
    } else {
        join_lines(
            seq![from_byte(first, s.column as int)] + lines.subrange(s.line + 1, e.line as int) + seq![
                before_byte(last, e.column as int),
            ],
        )
    }
}

impl BufferView {
    /// The cursor lies on a line, at most at its end in bytes; each end of
    /// the selection is a position where text can be cut.
    pub open spec fn wf(self) -> bool {
        &&& self.lines.len() >= 1
        &&& self.cursor.line < self.lines.len()
        &&& self.cursor.column <= blen(self.lines[self.cursor.line as int])
        &&& self.selection matches Some(s) ==> valid_pos(self.lines, s.anchor) && valid_pos(
            self.lines,
            s.head,
        )
    }

    /// Text can be inserted where the cursor will be once the selection is
    /// gone: the selection's start, else the cursor, which must then fall
    /// between two characters.
    pub open spec fn insert_ready(self) -> bool {
        self.has_selection() || on_boundary(self.lines[self.cursor.line as int], self.cursor.column as int)
    }

    /// The whole text, lines joined with line feeds.
    pub open spec fn text(self) -> Seq<char> {
        join_lines(self.lines)
    }

    /// Removes the text from `s` to `e`, leaving the cursor at `s` and
    /// recording the deletion.
    pub open spec fn delete_between(self, s: TextPosition, e: TextPosition) -> BufferView {
        BufferView {
            lines: delete_range(self.lines, s, e),
            cursor: s,
            selection: None,
            undo: self.undo.push(
                ActionView::Delete { start: s, end: e, deleted: extract_range(self.lines, s, e) },
            ),
            redo: Seq::empty(),
        }
    }

    /// Whether the selection covers some text.
    pub open spec fn has_selection(self) -> bool {
        self.selection matches Some(s) && s.anchor != s.head
    }

    /// Drops the selection, deleting its text when it covers some.
    pub open spec fn delete_selection(self) -> BufferView {
        if self.has_selection() {
            let s = self.selection->0;
            self.delete_between(sel_start(s), sel_end(s))
        } else {
            BufferView { selection: None, ..self }
        }
    }

    /// Inserts `t` at the cursor, after deleting the selection; the cursor
    /// moves past the bytes of `t`.
    pub open spec fn insert_text(self, t: Seq<char>) -> BufferView {
        let w = self.delete_selection();
        let p = w.cursor;
        let line = w.lines[p.line as int];
        BufferView {
            lines: w.lines.update(p.line as int, before_byte(line, p.column as int) + t + from_byte(line, p.column as int)),
            cursor: TextPosition { line: p.line, column: (p.column + blen(t)) as usize },
            selection: None,
            undo: w.undo.push(ActionView::Insert { pos: p, text: t }),
            redo: Seq::empty(),
        }
    }

    /// Splits the line at the cursor, after deleting the selection.
    pub open spec fn insert_newline(self) -> BufferView {
        let w = self.delete_selection();
        let p = w.cursor;
        let line = w.lines[p.line as int];
        BufferView {
            lines: w.lines.update(p.line as int, before_byte(line, p.column as int)).insert(
                p.line + 1,
                from_byte(line, p.column as int),
            ),
            cursor: TextPosition { line: (p.line + 1) as usize, column: 0 },
            selection: None,
            undo: w.undo.push(ActionView::Insert { pos: p, text: seq!['\n'] }),
            redo: Seq::empty(),
        }
    }

    /// Backspace can run: with no selection, a cursor past the start of its
    /// line has a character starting one byte before it, and at the start of
    /// a line the line above has a byte length that fits in `usize`.
    pub open spec fn backspace_ready(self) -> bool {
        !self.has_selection() ==> {
            let c = self.cursor;
            &&& c.column > 0 ==> on_boundary(self.lines[c.line as int], c.column - 1)
            &&& c.column == 0 && c.line > 0 ==> blen(self.lines[c.line - 1]) <= usize::MAX
        }
    }

    /// Deletes the selection, or the character that starts one byte before
    /// the cursor, or joins the line with the one before it.
    pub open spec fn backspace(self) -> BufferView {
        if self.has_selection() {
            self.delete_selection()
        } else {
            let w = BufferView { selection: None, ..self };
            let c = w.cursor;
            if c.column > 0 {
                let line = w.lines[c.line as int];
                let p = TextPosition { line: c.line, column: (c.column - 1) as usize };
                let k = cidx(line, p.column as int);
                BufferView {
                    lines: w.lines.update(
                        c.line as int,
                        line.subrange(0, k) + line.subrange(k + 1, line.len() as int),
                    ),
                    cursor: p,
                    selection: None,
                    undo: w.undo.push(ActionView::Delete { start: p, end: c, deleted: seq![line[k]] }),
                    redo: Seq::empty(),
                }
            } else if c.line > 0 {
                let prev = (c.line - 1) as usize;
                let start = TextPosition { line: prev, column: blen(w.lines[prev as int]) as usize };
                BufferView {
                    lines: w.lines.update(
                        prev as int,
                        w.lines[prev as int] + w.lines[c.line as int],
                    ).remove(c.line as int),
                    cursor: start,
                    selection: None,
                    undo: w.undo.push(
                        ActionView::Delete {
                            start,
                            end: TextPosition { line: (prev + 1) as usize, column: 0 },
                            deleted: seq!['\n'],
                        },
                    ),
                    redo: Seq::empty(),
                }
            } else {
                w
            }
        }
    }

    /// Where the text of an insertion ends.
    pub open spec fn insert_end(pos: TextPosition, text: Seq<char>) -> TextPosition {
        if text == seq!['\n'] {
            TextPosition { line: (pos.line + 1) as usize, column: 0 }
        } else {
            TextPosition { line: pos.line, column: (pos.column + blen(text)) as usize }
        }
    }

    /// The last action can be undone in place: its positions lie in the buffer.
    pub open spec fn undo_ready(self) -> bool {
        self.undo.len() > 0 ==> match self.undo.last() {
            ActionView::Insert { pos, text } => {
                &&& pos.column + blen(text) <= usize::MAX
                &&& text == seq!['\n'] ==> pos.line + 1 < self.lines.len()
                &&& valid_pos(self.lines, pos)
                &&& valid_pos(self.lines, BufferView::insert_end(pos, text))
            },
            ActionView::Delete { start, deleted, .. } => {
                &&& self.selection is None
                &&& valid_pos(self.lines, start)
                &&& start.column + blen(deleted) <= usize::MAX
            },
        }
    }

    /// Reverts the last action, recording it for redo.
    pub open spec fn undo(self) -> BufferView {
        if self.undo.len() == 0 {
            self
        } else {
            let rest = BufferView { undo: self.undo.drop_last(), ..self };
            match self.undo.last() {
                ActionView::Insert { pos, text } => {
                    let x = BufferView {
                        selection: Some(
                            TextSelection { anchor: pos, head: BufferView::insert_end(pos, text) },
                        ),
                        ..rest
                    }.delete_selection();
                    BufferView {
                        cursor: pos,
                        redo: x.redo.push(ActionView::Insert { pos, text }),
                        ..x
                    }
                },
                ActionView::Delete { start, deleted, .. } => {
                    let x = BufferView { cursor: start, ..rest }.insert_text(deleted);
                    BufferView {
                        redo: x.redo.push(ActionView::Delete { start, end: x.cursor, deleted }),
                        ..x
                    }
                },
            }
        }
    }

    /// Moves the cursor, clamped into the buffer (the column to the byte
    /// length of its line), and drops the selection.
    pub open spec fn set_cursor(self, pos: TextPosition) -> BufferView {
        let line = if pos.line < self.lines.len() {
            pos.line
        } else {
            (self.lines.len() - 1) as usize
        };
        let len = blen(self.lines[line as int]);
        let column = if pos.column < len {
            pos.column
        } else {
            len as usize
        };
        BufferView { cursor: TextPosition { line, column }, selection: None, ..self }
    }
}

/// Line-indexed text buffer supporting editing, selection, undo, and search.
#[derive(Clone)]
pub struct TextBuffer {
    lines: Vec<Vec<char>>,
    cursor: TextPosition,
    selection: Option<TextSelection>,
    undo_stack: Vec<EditAction>,
    redo_stack: Vec<EditAction>,
}

impl View for TextBuffer {
    type V = BufferView;

    closed spec fn view(&self) -> BufferView {
        BufferView {
            lines: views(self.lines@),
            cursor: self.cursor,
            selection: self.selection,
            undo: action_views(self.undo_stack@),
            redo: action_views(self.redo_stack@),
        }
    }
}

/// The lines of a text: a single empty line for empty text, else the lines
/// that `str::lines` yields.
pub open spec fn text_lines(text: Seq<char>) -> Seq<Seq<char>> {
    if text.len() == 0 {
        seq![Seq::empty()]
    } else {
        lines_seq(text)
    }
}

impl TextBuffer {
    /// An empty buffer: one empty line, cursor at the start, no history.
    pub fn new() -> (r: Self)
        ensures
            r@ == (BufferView {
                lines: seq![Seq::empty()],
                cursor: TextPosition { line: 0, column: 0 },
                selection: None,
                undo: Seq::empty(),
                redo: Seq::empty(),
            }),
            r@.wf(),
    {
        let r = TextBuffer {
            lines: vec![Vec::new()],
            cursor: TextPosition { line: 0, column: 0 },
            selection: None,
            undo_stack: Vec::new(),
            redo_stack: Vec::new(),
        };
        assert(r@.lines =~= seq![Seq::<char>::empty()]);
        assert(r@.undo =~= Seq::<ActionView>::empty());
        assert(r@.redo =~= Seq::<ActionView>::empty());
        r
    }

    /// A buffer holding `text`, cursor at the start, no history.
    pub fn from_text(text: &str) -> (r: Self)
        ensures
            r@ == (BufferView {
                lines: text_lines(text@),
                cursor: TextPosition { line: 0, column: 0 },
                selection: None,
                undo: Seq::empty(),
                redo: Seq::empty(),
            }),
            r@.wf(),
    {
        let chars = chars_of(text);
        let lines = if chars.len() == 0 {
            let l: Vec<Vec<char>> = vec![Vec::new()];
            assert(views(l@) =~= seq![Seq::<char>::empty()]);
            l
        } else {
            split_lines(&chars)
        };
        proof {
            if chars.len() > 0 {
                crate::text::lemma_lines_nonempty(chars@);
            }
        }
        let r = TextBuffer {
            lines,
            cursor: TextPosition { line: 0, column: 0 },
            selection: None,
            undo_stack: Vec::new(),
            redo_stack: Vec::new(),
        };
        assert(r@.undo =~= Seq::<ActionView>::empty());
        assert(r@.redo =~= Seq::<ActionView>::empty());
        r
    }

    /// The lines of the buffer.
    pub fn lines(&self) -> (r: Vec<String>)
        ensures
            r@.len() == self@.lines.len(),
            forall|i: int| 0 <= i < r@.len() ==> #[trigger] r@[i]@ == self@.lines[i],
    {
        let mut r: Vec<String> = Vec::new();
        let mut i: usize = 0;
        while i < self.lines.len()
            invariant
                i <= self.lines.len(),
                r@.len() == i,
                forall|k: int| 0 <= k < i ==> #[trigger] r@[k]@ == self@.lines[k],
            decreases self.lines.len() - i,
        {
            r.push(string_of(&self.lines[i]));
            i = i + 1;
        }
        r
    }

    pub fn line_count(&self) -> (r: usize)
        ensures
            r == self@.lines.len(),
    {
        self.lines.len()
    }

    pub fn cursor(&self) -> (r: TextPosition)
        ensures
            r == self@.cursor,
    {
        self.cursor
    }

    pub fn selection(&self) -> (r: Option<TextSelection>)
        ensures
            r == self@.selection,
    {
        self.selection
    }

    /// The whole text, lines joined with line feeds.
    pub fn to_string(&self) -> (r: String)
        ensures
            r@ == self@.text(),
    {
        let mut out: Vec<char> = Vec::new();
        let mut i: usize = 0;
        assert(self@.lines.take(0) =~= Seq::<Seq<char>>::empty());
        while i < self.lines.len()
            invariant
                i <= self.lines.len(),
                out@ == join_lines(self@.lines.take(i as int)),
            decreases self.lines.len() - i,
        {
            let ghost before = out@;
            if i > 0 {
                out.push('\n');
            }
            extend_range(&mut out, &self.lines[i], 0, self.lines[i].len());
            proof {
                let t = self@.lines.take(i + 1);
                assert(t.drop_last() =~= self@.lines.take(i as int));
                assert(self.lines@[i as int]@.subrange(0, self.lines@[i as int]@.len() as int)
                    =~= self@.lines[i as int]);
                if i == 0 {
                    assert(out@ =~= t[0]);
                } else {
                    assert(out@ =~= before + seq!['\n'] + t.last());
                }
            }
            i = i + 1;
        }
        assert(self@.lines.take(i as int) =~= self@.lines);
        string_of(&out)
    }

    /// Moves the cursor, clamped into the buffer (the column to the byte
    /// length of the line); drops the selection.
    pub fn set_cursor(&mut self, pos: TextPosition)
        requires
            old(self)@.wf(),
        ensures
            final(self)@ == old(self)@.set_cursor(pos),
            final(self)@.wf(),
    {
        let line = if pos.line < self.lines.len() {
            pos.line
        } else {
            self.lines.len() - 1
        };
        let column = byte_len_capped(&self.lines[line], pos.column);
        self.cursor = TextPosition { line, column };
        self.selection = None;
    }
}

proof fn lemma_cidx_mono(s: Seq<char>, a: int, b: int)
    requires
        a <= b,
    ensures
        cidx(s, a) <= cidx(s, b),
    decreases s.len(),
{
    lemma_cidx_bounds(s, a);
    lemma_cidx_bounds(s, b);
    if s.len() > 0 && a >= clen(s[0]) {
        lemma_cidx_mono(s.drop_first(), a - clen(s[0]), b - clen(s[0]));
    }
}

/// A line cut at two boundaries: the byte length of what remains.
proof fn lemma_cut_len(x: Seq<char>, y: Seq<char>, s: int, e: int)
    requires
        on_boundary(x, s),
        on_boundary(y, e),
    ensures
        blen(before_byte(x, s) + from_byte(y, e)) >= s,
        0 <= cidx(x, s) <= x.len(),
        0 <= cidx(y, e) <= y.len(),
{
    lemma_boundary_le(x, s);
    lemma_boundary_le(y, e);
    assert(before_byte(x, s) =~= x.take(cidx(x, s)));
    lemma_blen_add(before_byte(x, s), from_byte(y, e));
}

impl TextBuffer {
    /// The text from `s` to `e`.
    fn extract(&self, s: TextPosition, e: TextPosition) -> (r: Vec<char>)
        requires
            self@.wf(),
            pos_le(s, e),
            valid_pos(self@.lines, s),
            valid_pos(self@.lines, e),
        ensures
            r@ == extract_range(self@.lines, s, e),
    {
        let ghost lv = self@.lines;
        let first = &self.lines[s.line];
        proof {
            lemma_boundary_le(lv[s.line as int], s.column as int);
            lemma_boundary_le(lv[e.line as int], e.column as int);
        }
        let ks = char_index(first, s.column);
        if s.line == e.line {
            let ke = char_index(first, e.column);
            proof {
                lemma_cidx_mono(lv[s.line as int], s.column as int, e.column as int);
            }
            return slice_range(first, ks, ke);
        }
        let ghost head = seq![from_byte(lv[s.line as int], s.column as int)];
        let mut out = slice_range(first, ks, first.len());
        let mut l = s.line + 1;
        assert(lv.len() == self.lines@.len());
        assert(lv.subrange(s.line + 1, l as int) =~= Seq::<Seq<char>>::empty());
        assert(head + Seq::<Seq<char>>::empty() =~= head);
        while l < e.line
            invariant
                s.line < l <= e.line,
                e.line < self.lines.len(),
                lv == self@.lines,
                lv.len() == self.lines.len(),
                head == seq![from_byte(lv[s.line as int], s.column as int)],
                out@ == join_lines(head + lv.subrange(s.line + 1, l as int)),
            decreases e.line - l,
        {
            let ghost before = out@;
            out.push('\n');
            extend_range(&mut out, &self.lines[l], 0, self.lines[l].len());
            proof {
                let list = head + lv.subrange(s.line + 1, l + 1);
                assert(list.drop_last() =~= head + lv.subrange(s.line + 1, l as int));
                assert(self.lines@[l as int]@.subrange(0, self.lines@[l as int]@.len() as int)
                    =~= lv[l as int]);
                assert(list.last() == lv[l as int]);
                assert(out@ =~= before + seq!['\n'] + list.last());
                assert(list.len() >= 2);
                assert(join_seq(list, seq!['\n']) == join_seq(list.drop_last(), seq!['\n']) + seq!['\n'] + list.last());
                assert(out@ == join_lines(list));
            }
            l = l + 1;
        }
        let ghost before = out@;
        let ke = char_index(&self.lines[e.line], e.column);
        out.push('\n');
        extend_range(&mut out, &self.lines[e.line], 0, ke);
        proof {
            let list = head + lv.subrange(s.line + 1, e.line as int) + seq![
                before_byte(lv[e.line as int], e.column as int),
            ];
            assert(list.drop_last() =~= head + lv.subrange(s.line + 1, e.line as int));
            assert(out@ =~= before + seq!['\n'] + list.last());
        }
        out
    }

    /// Removes the text from `s` to `e`; the cursor goes to `s`.
    fn delete_between(&mut self, s: TextPosition, e: TextPosition)
        requires
            old(self)@.wf(),
            pos_le(s, e),
            valid_pos(old(self)@.lines, s),
            valid_pos(old(self)@.lines, e),
        ensures
            final(self)@ == old(self)@.delete_between(s, e),
            final(self)@.wf(),
    {
        let ghost v = self@;
        let deleted = self.extract(s, e);
        proof {
            lemma_cut_len(v.lines[s.line as int], v.lines[e.line as int], s.column as int, e.column as int);
        }
        let ks = char_index(&self.lines[s.line], s.column);
        let ke = char_index(&self.lines[e.line], e.column);
        if s.line == e.line {
            let line = &self.lines[s.line];
            let mut joined = slice_range(line, 0, ks);
            extend_range(&mut joined, line, ke, line.len());
            let ghost lines_before = self.lines@;
            self.lines.set(s.line, joined);
            proof {
                lemma_views_edit(lines_before, joined, s.line as int);
                assert(views(self.lines@) =~= delete_range(v.lines, s, e));
            }
        } else {
            let mut joined = slice_range(&self.lines[s.line], 0, ks);
            extend_range(&mut joined, &self.lines[e.line], ke, self.lines[e.line].len());
            let mut k = e.line;
            assert(v.lines.subrange(0, k + 1) + v.lines.subrange(e.line + 1, v.lines.len() as int)
                =~= v.lines);
            while k > s.line
                invariant
                    s.line <= k <= e.line,
                    views(self.lines@).len() == self.lines@.len(),
                    action_views(self.undo_stack@) == v.undo,
                    e.line < v.lines.len(),
                    views(self.lines@) == v.lines.subrange(0, k + 1) + v.lines.subrange(
                        e.line + 1,
                        v.lines.len() as int,
                    ),
                decreases k,
            {
                let ghost before = self.lines@;
                proof {
                    lemma_views_edit(before, joined, k as int);
                }
                self.lines.remove(k);
                proof {
                    assert(views(self.lines@) =~= v.lines.subrange(0, k as int) + v.lines.subrange(
                        e.line + 1,
                        v.lines.len() as int,
                    ));
                }
                k = k - 1;
            }
            let ghost lines_before = self.lines@;
            proof {
                lemma_views_edit(lines_before, joined, s.line as int);
            }
            self.lines.set(s.line, joined);
            proof {
                assert(views(self.lines@) =~= delete_range(v.lines, s, e));
            }
        }
        self.cursor = s;
        self.selection = None;
        let ghost undo_before = self.undo_stack@;
        self.undo_stack.push(
            EditAction::Delete { start: s, end: e, deleted_text: string_of(&deleted) },
        );
        self.redo_stack = Vec::new();
        proof {
            assert(action_views(self.undo_stack@) =~= action_views(undo_before).push(
                ActionView::Delete { start: s, end: e, deleted: extract_range(v.lines, s, e) },
            ));
            assert(action_views(self.redo_stack@) =~= Seq::<ActionView>::empty());
            assert(self@.lines == delete_range(v.lines, s, e));
            assert(self@.lines[s.line as int] == before_byte(v.lines[s.line as int], s.column as int)
                + from_byte(v.lines[e.line as int], e.column as int));
            assert(self@.undo == v.undo.push(ActionView::Delete { start: s, end: e, deleted: extract_range(v.lines, s, e) }));
            assert(self@.cursor == s);
            assert(self@.selection is None);
            assert(self@ == v.delete_between(s, e));
        }
    }

    /// Drops the selection, deleting its text when it covers some; tells
    /// whether text was deleted.
    pub fn delete_selection(&mut self) -> (r: bool)
        requires
            old(self)@.wf(),
        ensures
            r == old(self)@.has_selection(),
            final(self)@ == old(self)@.delete_selection(),
            final(self)@.wf(),
    {
        match self.selection {
            Some(sel) => {
                if !sel.is_empty() {
                    let start = sel.start();
                    let end = sel.end();
                    self.delete_between(start, end);
                    return true;
                }
            },
            None => {},
        }
        self.selection = None;
        false
    }

    /// Inserts `text` at the cursor, replacing the selection; the cursor
    /// moves past the bytes of the inserted text.
    pub fn insert_text(&mut self, text: &str)
        requires
            old(self)@.wf(),
            old(self)@.insert_ready(),
            old(self)@.delete_selection().cursor.column + blen(text@) <= usize::MAX,
        ensures
            final(self)@ == old(self)@.insert_text(text@),
            final(self)@.wf(),
    {
        let ghost v = self@;
        self.delete_selection();
        let ghost w = self@;
        let pos = self.cursor;
        proof {
            if v.has_selection() {
                let sel = v.selection->0;
                assert(valid_pos(v.lines, sel_start(sel)));
                assert(valid_pos(v.lines, sel_end(sel)));
                assert(w.lines[pos.line as int] == before_byte(v.lines[pos.line as int], pos.column as int)
                    + from_byte(v.lines[sel_end(sel).line as int], sel_end(sel).column as int));
                lemma_boundary_le(v.lines[pos.line as int], pos.column as int);
                let a = before_byte(v.lines[pos.line as int], pos.column as int);
                assert(a =~= v.lines[pos.line as int].take(cidx(v.lines[pos.line as int], pos.column as int)));
                lemma_splice(a, Seq::empty(), from_byte(v.lines[sel_end(sel).line as int], sel_end(sel).column as int));
                assert(a + Seq::<char>::empty() + from_byte(v.lines[sel_end(sel).line as int], sel_end(sel).column as int)
                    =~= w.lines[pos.line as int]);
            }
            assert(on_boundary(w.lines[pos.line as int], pos.column as int));
            lemma_boundary_le(w.lines[pos.line as int], pos.column as int);
        }
        let t = chars_of(text);
        let line = &self.lines[pos.line];
        let k = char_index(line, pos.column);
        let mut changed = slice_range(line, 0, k);
        extend_range(&mut changed, &t, 0, t.len());
        extend_range(&mut changed, line, k, line.len());
        assert(t@.subrange(0, t@.len() as int) =~= t@);
        let column = bytes_after(pos.column, &t);
        let ghost lines_before = self.lines@;
        proof {
            lemma_views_edit(lines_before, changed, pos.line as int);
            let ln = w.lines[pos.line as int];
            let a = before_byte(ln, pos.column as int);
            assert(a =~= ln.take(k as int));
            lemma_splice(a, t@, from_byte(ln, pos.column as int));
        }
        self.lines.set(pos.line, changed);
        self.cursor = TextPosition { line: pos.line, column };
        let ghost undo_before = self.undo_stack@;
        self.undo_stack.push(EditAction::Insert { pos, text: text.to_owned() });
        self.redo_stack = Vec::new();
        proof {
            assert(views(self.lines@) =~= w.lines.update(
                pos.line as int,
                before_byte(w.lines[pos.line as int], pos.column as int) + text@ + from_byte(
                    w.lines[pos.line as int],
                    pos.column as int,
                ),
            ));
            assert(action_views(self.undo_stack@) =~= action_views(undo_before).push(
                ActionView::Insert { pos, text: text@ },
            ));
            assert(action_views(self.redo_stack@) =~= Seq::<ActionView>::empty());
        }
    }

    /// Splits the line at the cursor, replacing the selection; the cursor
    /// goes to the start of the new line.
    pub fn insert_newline(&mut self)
        requires
            old(self)@.wf(),
            old(self)@.insert_ready(),
        ensures
            final(self)@ == old(self)@.insert_newline(),
            final(self)@.wf(),
    {
        let ghost v = self@;
        self.delete_selection();
        let ghost w = self@;
        let pos = self.cursor;
        proof {
            if v.has_selection() {
                let sel = v.selection->0;
                assert(valid_pos(v.lines, sel_start(sel)));
                assert(valid_pos(v.lines, sel_end(sel)));
                lemma_boundary_le(v.lines[pos.line as int], pos.column as int);
                let a = before_byte(v.lines[pos.line as int], pos.column as int);
                assert(a =~= v.lines[pos.line as int].take(cidx(v.lines[pos.line as int], pos.column as int)));
                lemma_splice(a, Seq::empty(), from_byte(v.lines[sel_end(sel).line as int], sel_end(sel).column as int));
                assert(a + Seq::<char>::empty() + from_byte(v.lines[sel_end(sel).line as int], sel_end(sel).column as int)
                    =~= w.lines[pos.line as int]);
            }
            assert(on_boundary(w.lines[pos.line as int], pos.column as int));
            lemma_boundary_le(w.lines[pos.line as int], pos.column as int);
        }
        assert(self@.lines.len() == self.lines@.len());
        assert(pos.line < self.lines@.len());
        let count = self.lines.len();
        let k = char_index(&self.lines[pos.line], pos.column);
        let head = slice_range(&self.lines[pos.line], 0, k);
        let rest = slice_range(&self.lines[pos.line], k, self.lines[pos.line].len());
        let ghost lines_before = self.lines@;
        proof {
            lemma_views_edit(lines_before, head, pos.line as int);
            lemma_views_edit(lines_before.update(pos.line as int, head), rest, pos.line + 1);
        }
        self.lines.set(pos.line, head);
        self.lines.insert(pos.line + 1, rest);
        self.cursor = TextPosition { line: pos.line + 1, column: 0 };
        let ghost undo_before = self.undo_stack@;
        let mut nl = String::new();
        nl.push('\n');
        assert(nl@ =~= seq!['\n']);
        self.undo_stack.push(EditAction::Insert { pos, text: nl });
        self.redo_stack = Vec::new();
        proof {
            assert(views(self.lines@) =~= w.lines.update(
                pos.line as int,
                before_byte(w.lines[pos.line as int], pos.column as int),
            ).insert(pos.line + 1, from_byte(w.lines[pos.line as int], pos.column as int)));
            assert(action_views(self.undo_stack@) =~= action_views(undo_before).push(
                ActionView::Insert { pos, text: seq!['\n'] },
            ));
            assert(action_views(self.redo_stack@) =~= Seq::<ActionView>::empty());
        }
    }

    /// Types one character: a line feed splits the line.
    pub fn insert_char(&mut self, c: char)
        requires
            old(self)@.wf(),
            old(self)@.insert_ready(),
            c != '\n' ==> old(self)@.delete_selection().cursor.column + clen(c) <= usize::MAX,
        ensures
            final(self)@ == if c == '\n' {
                old(self)@.insert_newline()
            } else {
                old(self)@.insert_text(seq![c])
            },
            final(self)@.wf(),
    {
        if c == '\n' {
            self.insert_newline();
        } else {
            let mut s = String::new();
            s.push(c);
            assert(s@ =~= seq![c]);
            proof {
                lemma_blen_push(Seq::empty(), c);
                assert(Seq::<char>::empty().push(c) =~= seq![c]);
            }
            self.insert_text(s.as_str());
        }
    }

    /// Deletes the selection, else the character that starts one byte
    /// before the cursor, else joins the line with the one before it.
    pub fn backspace(&mut self)
        requires
            old(self)@.wf(),
            old(self)@.backspace_ready(),
        ensures
            final(self)@ == old(self)@.backspace(),
            final(self)@.wf(),
    {
        if self.delete_selection() {
            return ;
        }
        let ghost w = self@;
        let c = self.cursor;
        if c.column > 0 {
            let p = TextPosition { line: c.line, column: c.column - 1 };
            let line = &self.lines[c.line];
            let k = char_index(line, p.column);
            proof {
                let ln = w.lines[c.line as int];
                lemma_boundary_le(ln, p.column as int);
                if k as int == ln.len() {
                    assert(ln.take(k as int) =~= ln);
                }
                lemma_cidx_prefix(ln, k as int);
                assert(k < ln.len());
                assert(line@ == ln);
            }
            let ch = line[k];
            let width = line.len();
            let mut changed = slice_range(line, 0, k);
            extend_range(&mut changed, line, k + 1, line.len());
            let ghost lines_before = self.lines@;
            proof {
                lemma_views_edit(lines_before, changed, c.line as int);
                let ln = w.lines[c.line as int];
                assert(changed@ =~= ln.take(k as int) + ln.skip(k + 1));
                lemma_blen_add(ln.take(k as int), ln.skip(k + 1));
            }
            self.lines.set(c.line, changed);
            self.cursor = p;
            let mut deleted = String::new();
            deleted.push(ch);
            let ghost undo_before = self.undo_stack@;
            self.undo_stack.push(EditAction::Delete { start: p, end: c, deleted_text: deleted });
            self.redo_stack = Vec::new();
            proof {
                let ln = w.lines[c.line as int];
                assert(views(self.lines@) =~= w.lines.update(
                    c.line as int,
                    ln.subrange(0, k as int) + ln.subrange(k + 1, ln.len() as int),
                ));
                assert(action_views(self.undo_stack@) =~= action_views(undo_before).push(
                    ActionView::Delete { start: p, end: c, deleted: seq![ln[k as int]] },
                ));
                assert(action_views(self.redo_stack@) =~= Seq::<ActionView>::empty());
            }
        } else if c.line > 0 {
            let prev = c.line - 1;
            let prev_len = byte_len_capped(&self.lines[prev], usize::MAX);
            let ghost lines_before = self.lines@;
            proof {
                lemma_views_edit(lines_before, lines_before[prev as int], c.line as int);
            }
            let current = self.lines.remove(c.line);
            let mut joined = slice_range(&self.lines[prev], 0, self.lines[prev].len());
            extend_range(&mut joined, &current, 0, current.len());
            let ghost lines_mid = self.lines@;
            proof {
                lemma_views_edit(lines_mid, joined, prev as int);
                assert(joined@ =~= w.lines[prev as int] + w.lines[c.line as int]);
                lemma_blen_add(w.lines[prev as int], w.lines[c.line as int]);
            }
            self.lines.set(prev, joined);
            let start = TextPosition { line: prev, column: prev_len };
            self.cursor = start;
            let mut nl = String::new();
            nl.push('\n');
            assert(nl@ =~= seq!['\n']);
            let ghost undo_before = self.undo_stack@;
            self.undo_stack.push(
                EditAction::Delete {
                    start,
                    end: TextPosition { line: prev + 1, column: 0 },
                    deleted_text: nl,
                },
            );
            self.redo_stack = Vec::new();
            proof {
                assert(views(self.lines@) =~= w.lines.update(
                    prev as int,
                    w.lines[prev as int] + w.lines[c.line as int],
                ).remove(c.line as int));
                assert(action_views(self.undo_stack@) =~= action_views(undo_before).push(
                    ActionView::Delete {
                        start,
                        end: TextPosition { line: (prev + 1) as usize, column: 0 },
                        deleted: seq!['\n'],
                    },
                ));
                assert(action_views(self.redo_stack@) =~= Seq::<ActionView>::empty());
            }
        }
    }

    /// Whether `p` is a position of the buffer where text can be cut or
    /// inserted: on a line, between two of its characters.
    pub fn is_valid_pos(&self, p: TextPosition) -> (r: bool)
        ensures
            r == valid_pos(self@.lines, p),
    {
        if p.line >= self.lines.len() {
            return false;
        }
        let line = &self.lines[p.line];
        let k = char_index(line, p.column);
        let prefix = slice_range(line, 0, k);
        proof {
            lemma_cidx_prefix_le(line@, p.column as int);
            assert(prefix@ =~= line@.take(k as int));
            assert(self@.lines[p.line as int] == line@);
        }
        let b = byte_len_capped(&prefix, p.column);
        b == p.column
    }

    /// Whether `undo` can run on this buffer: the positions its last action
    /// recorded still lie in the buffer.
    pub fn can_undo(&self) -> (r: bool)
        requires
            self@.wf(),
        ensures
            r == self@.undo_ready(),
    {
        let n = self.undo_stack.len();
        if n == 0 {
            return true;
        }
        proof {
            assert(self@.undo.last() == self.undo_stack@[n - 1]@);
        }
        match &self.undo_stack[n - 1] {
            EditAction::Insert { pos, text } => {
                let t = chars_of(text.as_str());
                if !fits_bytes(&t, usize::MAX - pos.column) {
                    return false;
                }
                let is_newline = t.len() == 1 && t[0] == '\n';
                proof {
                    if is_newline {
                        assert(t@ =~= seq!['\n']);
                    } else if t@ == seq!['\n'] {
                        assert(t@.len() == 1 && t@[0] == '\n');
                    }
                }
                let count = self.lines.len();
                assert(self@.lines.len() == self.lines@.len());
                if is_newline && !(pos.line < count - 1) {
                    return false;
                }
                let end = if is_newline {
                    TextPosition { line: pos.line + 1, column: 0 }
                } else {
                    TextPosition { line: pos.line, column: bytes_after(pos.column, &t) }
                };
                self.is_valid_pos(*pos) && self.is_valid_pos(end)
            },
            EditAction::Delete { start, deleted_text, .. } => {
                let d = chars_of(deleted_text.as_str());
                self.selection.is_none() && self.is_valid_pos(*start) && fits_bytes(&d, usize::MAX - start.column)
            },
        }
    }

    /// Reverts the last action and records it for redo.
    pub fn undo(&mut self)
        requires
            old(self)@.wf(),
            old(self)@.undo_ready(),
        ensures
            final(self)@ == old(self)@.undo(),
            final(self)@.wf(),
    {
        let ghost v = self@;
        let ghost undo_all = self.undo_stack@;
        match self.undo_stack.pop() {
            None => {},
            Some(action) => {
                proof {
                    assert(action_views(self.undo_stack@) =~= v.undo.drop_last());
                    assert(action@ == v.undo.last());
                }
                match action {
                    EditAction::Insert { pos, text } => {
                        let t = chars_of(text.as_str());
                        let count = self.lines.len();
                        assert(v.lines.len() == self.lines@.len());
                        assert(self@.lines.len() == self.lines@.len());
                        let is_newline = t.len() == 1 && t[0] == '\n';
                        proof {
                            if is_newline {
                                assert(t@ =~= seq!['\n']);
                            } else {
                                assert(t@ != seq!['\n']);
                            }
                        }
                        proof {
                            assert(v.undo.last() == ActionView::Insert { pos, text: t@ });
                            if is_newline {
                                assert(pos.line + 1 < v.lines.len());
                            }
                        }
                        let end = if is_newline {
                            TextPosition { line: pos.line + 1, column: 0 }
                        } else {
                            TextPosition { line: pos.line, column: bytes_after(pos.column, &t) }
                        };
                        self.selection = Some(TextSelection { anchor: pos, head: end });
                        let ghost before_delete = self@;
                        self.delete_selection();
                        proof {
                            lemma_boundary_le(v.lines[pos.line as int], pos.column as int);
                            if !before_delete.has_selection() {
                                assert(self@.lines == v.lines);
                            }
                        }
                        self.cursor = pos;
                        let ghost redo_before = self.redo_stack@;
                        self.redo_stack.push(EditAction::Insert { pos, text });
                        proof {
                            assert(action_views(self.redo_stack@) =~= action_views(redo_before).push(
                                ActionView::Insert { pos, text: t@ },
                            ));
                        }
                    },
                    EditAction::Delete { start, end, deleted_text } => {
                        proof {
                            lemma_boundary_le(v.lines[start.line as int], start.column as int);
                        }
                        self.cursor = start;
                        self.insert_text(deleted_text.as_str());
                        let e = self.cursor;
                        let ghost redo_before = self.redo_stack@;
                        let ghost d = deleted_text@;
                        self.redo_stack.push(EditAction::Delete { start, end: e, deleted_text });
                        proof {
                            assert(action_views(self.redo_stack@) =~= action_views(redo_before).push(
                                ActionView::Delete { start, end: e, deleted: d },
                            ));
                        }
                    },
                }
            },
        }
    }
}


// ---------------------------------------------------------------------------
// Laws of editing and undo
// ---------------------------------------------------------------------------

/// Undo reverts typed text: with no selection and the cursor between two
/// characters, inserting text other than a lone line feed and then undoing
/// gives back the lines and the cursor.
pub proof fn law_undo_reverts_insert(v: BufferView, t: Seq<char>)
    requires
        v.wf(),
        !v.has_selection(),
        on_boundary(v.lines[v.cursor.line as int], v.cursor.column as int),
        t != seq!['\n'],
        v.cursor.column + blen(t) <= usize::MAX,
    ensures
        v.insert_text(t).undo_ready(),
        v.insert_text(t).undo().lines == v.lines,
        v.insert_text(t).undo().cursor == v.cursor,
{
    let p = v.cursor;
    let line = v.lines[p.line as int];
    lemma_boundary_le(line, p.column as int);
    let k = cidx(line, p.column as int);
    let a = line.subrange(0, k);
    let c = line.subrange(k, line.len() as int);
    assert(a =~= line.take(k));
    assert(a + c =~= line);
    let x = v.insert_text(t);
    let changed = a + t + c;
    assert(x.lines[p.line as int] == changed);
    lemma_splice(a, t, c);
    assert(x.undo.last() == ActionView::Insert { pos: p, text: t });
    let end = BufferView::insert_end(p, t);
    assert(end == TextPosition { line: p.line, column: (p.column + blen(t)) as usize });
    assert(changed.subrange(0, a.len() as int) =~= a);
    assert(changed.subrange((a.len() + t.len()) as int, changed.len() as int) =~= c);
    assert(x.lines.update(p.line as int, line) =~= v.lines);
    let y = x.undo();
    if t.len() == 0 {
        assert(blen(t) == 0);
        assert(changed =~= line);
        assert(x.lines =~= v.lines);
        assert(y.lines == x.lines);
    } else {
        assert(blen(t) > 0);
        assert(p != end);
        assert(y.lines == delete_range(x.lines, p, end));
    }
}

/// Undo reverts a line break: with no selection and the cursor between two
/// characters, splitting the line at the cursor and then undoing gives back
/// the lines and the cursor.
pub proof fn law_undo_reverts_newline(v: BufferView)
    requires
        v.wf(),
        !v.has_selection(),
        on_boundary(v.lines[v.cursor.line as int], v.cursor.column as int),
        v.lines.len() < usize::MAX,
        v.cursor.column < usize::MAX,
    ensures
        v.insert_newline().undo_ready(),
        v.insert_newline().undo().lines == v.lines,
        v.insert_newline().undo().cursor == v.cursor,
{
    let p = v.cursor;
    let line = v.lines[p.line as int];
    lemma_boundary_le(line, p.column as int);
    let k = cidx(line, p.column as int);
    let x = v.insert_newline();
    let head = line.subrange(0, k);
    let tail = line.subrange(k, line.len() as int);
    assert(head =~= line.take(k));
    assert(x.lines[p.line as int] == head);
    assert(x.lines[p.line + 1] == tail);
    lemma_splice(head, Seq::empty(), Seq::empty());
    assert(head + Seq::<char>::empty() + Seq::<char>::empty() =~= head);
    lemma_splice(Seq::empty(), Seq::empty(), tail);
    assert(Seq::<char>::empty() + Seq::<char>::empty() + tail =~= tail);
    assert(blen(Seq::<char>::empty()) == 0);
    assert(blen(seq!['\n']) == 1) by {
        lemma_blen_push(Seq::empty(), '\n');
        assert(Seq::<char>::empty().push('\n') =~= seq!['\n']);
    }
    assert(x.undo.last() == ActionView::Insert { pos: p, text: seq!['\n'] });
    let e = TextPosition { line: (p.line + 1) as usize, column: 0 };
    assert(BufferView::insert_end(p, seq!['\n']) == e);
    assert(delete_range(x.lines, p, e) =~= v.lines) by {
        assert(before_byte(head, p.column as int) =~= head);
        assert(from_byte(tail, 0) =~= tail);
        assert(head + tail =~= line);
    }
}

proof fn lemma_join_front(x: Seq<char>, rest: Seq<Seq<char>>)
    requires
        rest.len() >= 1,
    ensures
        join_lines(seq![x] + rest) == x + seq!['\n'] + join_lines(rest),
    decreases rest.len(),
{
    let sep = seq!['\n'];
    let all = seq![x] + rest;
    assert(join_seq(all, sep) == join_seq(all.drop_last(), sep) + sep + all.last());
    if rest.len() == 1 {
        assert(all.drop_last() =~= seq![x]);
        assert(all.last() == rest[0]);
        assert(join_seq(seq![x], sep) == x);
        assert(join_seq(rest, sep) == rest[0]);
    } else {
        lemma_join_front(x, rest.drop_last());
        assert(all.drop_last() =~= seq![x] + rest.drop_last());
        assert(all.last() == rest.last());
        assert(join_seq(rest, sep) == join_seq(rest.drop_last(), sep) + sep + rest.last());
        assert(join_lines(all) =~= x + sep + join_lines(rest));
    }
}

/// A text without carriage returns and without a final line feed is given
/// back whole by joining the lines a buffer is made of, and it has as many
/// lines as splitting it at line feeds gives pieces.
pub proof fn law_from_text_round_trip(text: Seq<char>)
    requires
        forall|i: int| 0 <= i < text.len() ==> text[i] != '\r',
        text.len() == 0 || text.last() != '\n',
    ensures
        join_lines(text_lines(text)) == text,
        text_lines(text).len() == split_on(text, '\n').len(),
    decreases text.len(),
{
    lemma_char_index(text, '\n');
    if text.len() > 0 {
        let i = nl_index(text);
        lemma_nl_index(text);
        lemma_char_index_is(text, '\n', i);
        if i < text.len() {
            let a = text.subrange(0, i);
            let rest = text.subrange(i + 1, text.len() as int);
            assert(rest.len() > 0) by {
                if rest.len() == 0 {
                    assert(text.last() == text[i]);
                }
            }
            if a.len() > 0 {
                assert(a.last() == text[i - 1]);
            }
            assert(strip_cr(a) == a);
            assert(rest.last() == text.last());
            assert forall|j: int| 0 <= j < rest.len() implies rest[j] != '\r' by {
                assert(rest[j] == text[i + 1 + j]);
            }
            law_from_text_round_trip(rest);
            lemma_lines_nonempty(rest);
            assert(text_lines(rest) == lines_seq(rest));
            assert(lines_seq(text) == seq![a] + lines_seq(rest));
            lemma_join_front(a, lines_seq(rest));
            assert(text =~= a + seq!['\n'] + rest);
        } else {
            assert(text.last() == text[text.len() - 1]);
            assert(strip_cr(text) == text);
            assert(lines_seq(text) == seq![text]);
        }
    }
}

proof fn lemma_join_merge(a: Seq<Seq<char>>, x: Seq<char>, y: Seq<char>, b: Seq<Seq<char>>)
    ensures
        join_lines(a + seq![x, y] + b) == join_lines(a + seq![x + seq!['\n'] + y] + b),
    decreases b.len(),
{
    let sep = seq!['\n'];
    if b.len() == 0 {
        assert(a + seq![x, y] + b =~= (a + seq![x]).push(y));
        assert((a + seq![x]).push(y).drop_last() =~= a + seq![x]);
        assert(a + seq![x + sep + y] + b =~= a.push(x + sep + y));
        assert(a.push(x + sep + y).drop_last() =~= a);
        if a.len() > 0 {
            assert((a + seq![x]).drop_last() =~= a);
        } else {
            assert(a + seq![x] =~= seq![x]);
        }
        assert(join_seq(a + seq![x], sep) + sep + y =~= (if a.len() == 0 {
            Seq::empty()
        } else {
            join_seq(a, sep) + sep
        }) + (x + sep + y));
    } else {
        lemma_join_merge(a, x, y, b.drop_last());
        assert((a + seq![x, y] + b).drop_last() =~= a + seq![x, y] + b.drop_last());
        assert((a + seq![x + sep + y] + b).drop_last() =~= a + seq![x + sep + y] + b.drop_last());
    }
}

/// Undo reverts a backspace: with no selection and the cursor past the start
/// of the buffer, deleting backwards and then undoing gives back the text.
pub proof fn law_undo_reverts_backspace(v: BufferView)
    requires
        v.wf(),
        !v.has_selection(),
        v.backspace_ready(),
        v.cursor.column > 0 || v.cursor.line > 0,
        blen(v.lines[v.cursor.line as int]) < usize::MAX,
        v.cursor.column == 0 && v.cursor.line > 0 ==> blen(v.lines[v.cursor.line - 1]) < usize::MAX,
    ensures
        v.backspace().undo_ready(),
        v.backspace().undo().text() == v.text(),
{
    let c = v.cursor;
    let x = v.backspace();
    if c.column > 0 {
        let line = v.lines[c.line as int];
        let p = TextPosition { line: c.line, column: (c.column - 1) as usize };
        lemma_boundary_le(line, p.column as int);
        let k = cidx(line, p.column as int);
        if k == line.len() {
            assert(line.take(k) =~= line);
        }
        assert(k < line.len());
        let ch = line[k];
        let a = line.take(k);
        let rest = line.skip(k + 1);
        let cut = line.subrange(0, k) + line.subrange(k + 1, line.len() as int);
        assert(cut =~= a + rest);
        assert(x.lines == v.lines.update(c.line as int, cut));
        assert(x.undo.last() == ActionView::Delete { start: p, end: c, deleted: seq![ch] });
        lemma_splice(a, Seq::empty(), rest);
        assert(a + Seq::<char>::empty() + rest =~= cut);
        lemma_cidx_prefix(line, k + 1);
        assert(line.take(k + 1) =~= a.push(ch));
        lemma_blen_push(a, ch);
        lemma_blen_push(Seq::empty(), ch);
        assert(Seq::<char>::empty().push(ch) =~= seq![ch]);
        assert(blen(Seq::<char>::empty()) == 0);
        assert(x.undo_ready());
        assert(before_byte(cut, p.column as int) =~= a);
        assert(from_byte(cut, p.column as int) =~= rest);
        assert(a + seq![ch] + rest =~= line);
        assert(x.undo().lines =~= v.lines);
    } else {
        let prev = (c.line - 1) as usize;
        let l0 = v.lines[prev as int];
        let l1 = v.lines[c.line as int];
        let start = TextPosition { line: prev, column: blen(l0) as usize };
        assert(x.undo.last() == ActionView::Delete {
            start,
            end: TextPosition { line: (prev + 1) as usize, column: 0 },
            deleted: seq!['\n'],
        });
        let joined = l0 + l1;
        assert(x.lines[prev as int] == joined);
        lemma_splice(l0, Seq::empty(), l1);
        assert(l0 + Seq::<char>::empty() + l1 =~= joined);
        assert(blen(seq!['\n']) == 1) by {
            lemma_blen_push(Seq::empty(), '\n');
            assert(Seq::<char>::empty().push('\n') =~= seq!['\n']);
        }
        assert(blen(Seq::<char>::empty()) == 0);
        assert(x.undo_ready());
        assert(before_byte(joined, blen(l0) as int) =~= l0);
        assert(from_byte(joined, blen(l0) as int) =~= l1);
        let restored = l0 + seq!['\n'] + l1;
        let a = v.lines.subrange(0, prev as int);
        let b = v.lines.subrange(c.line + 1, v.lines.len() as int);
        assert(v.lines =~= a + seq![l0, l1] + b);
        assert(x.undo().lines =~= a + seq![restored] + b);
        lemma_join_merge(a, l0, l1, b);
    }
}


// ---------------------------------------------------------------------------
// Bracket matching
// ---------------------------------------------------------------------------

/// For a bracket: its pair, and whether its match lies forward.
pub open spec fn bracket_pair(c: char) -> Option<(char, char, bool)> {
    if c == '(' {
        Some(('(', ')', true))
    } else if c == '{' {
        Some(('{', '}', true))
    } else if c == '[' {
        Some(('[', ']', true))
    } else if c == ')' {
        Some(('(', ')', false))
    } else if c == '}' {
        Some(('{', '}', false))
    } else if c == ']' {
        Some(('[', ']', false))
    } else {
        None
    }
}

/// Scanning forward from line `l`, column `c` with nesting `depth`: where
/// the nesting returns to zero on a closing bracket.
pub open spec fn scan_forward(
    lines: Seq<Seq<char>>,
    l: int,
    c: int,
    depth: int,
    open: char,
    close: char,
) -> Option<TextPosition>
    decreases lines.len() - l, if 0 <= l < lines.len() {
        lines[l].len() - c
    } else {
        0
    },
{
    if l < 0 || l >= lines.len() {
        None
    } else if c < 0 || c >= lines[l].len() {
        scan_forward(lines, l + 1, 0, depth, open, close)
    } else if lines[l][c] == open {
        scan_forward(lines, l, c + 1, depth + 1, open, close)
    } else if lines[l][c] == close {
        if depth - 1 == 0 {
            Some(TextPosition { line: l as usize, column: c as usize })
        } else {
            scan_forward(lines, l, c + 1, depth - 1, open, close)
        }
    } else {
        scan_forward(lines, l, c + 1, depth, open, close)
    }
}

/// Scanning backward from line `l`, column `c` with nesting `depth`: where
/// the nesting returns to zero on an opening bracket.
pub open spec fn scan_backward(
    lines: Seq<Seq<char>>,
    l: int,
    c: int,
    depth: int,
    open: char,
    close: char,
) -> Option<TextPosition>
    decreases l + 1, c + 1,
{
    if l < 0 || l >= lines.len() {
        None
    } else if c < 0 || c >= lines[l].len() {
        if l == 0 {
            None
        } else {
            scan_backward(lines, l - 1, lines[l - 1].len() - 1, depth, open, close)
        }
    } else if lines[l][c] == close {
        scan_backward(lines, l, c - 1, depth + 1, open, close)
    } else if lines[l][c] == open {
        if depth - 1 == 0 {
            Some(TextPosition { line: l as usize, column: c as usize })
        } else {
            scan_backward(lines, l, c - 1, depth - 1, open, close)
        }
    } else {
        scan_backward(lines, l, c - 1, depth, open, close)
    }
}

impl BufferView {
    /// The bracket matching the one under the cursor. Here the cursor
    /// column and the position found count characters, not bytes: the
    /// bracket under the cursor is the character at that index.
    pub open spec fn matching_bracket(self) -> Option<TextPosition> {
        let line = self.lines[self.cursor.line as int];
        let col = self.cursor.column as int;
        if col >= line.len() {
            None
        } else {
            match bracket_pair(line[col]) {
                None => None,
                Some((open, close, forward)) => if forward {
                    scan_forward(self.lines, self.cursor.line as int, col, 0, open, close)
                } else {
                    scan_backward(self.lines, self.cursor.line as int, col, 0, open, close)
                },
            }
        }
    }
}

/// Position `(i, j)` comes strictly before `(l2, c2)` in reading order.
pub open spec fn reads_before(i: int, j: int, l2: int, c2: int) -> bool {
    i < l2 || (i == l2 && j < c2)
}

/// The forward scan does not stop at the end of a line: scanning on from
/// past the last character of a line is scanning from the start of the
/// next one.
pub proof fn law_forward_scan_crosses_lines(
    lines: Seq<Seq<char>>,
    l: int,
    depth: int,
    open: char,
    close: char,
)
    requires
        0 <= l < lines.len(),
    ensures
        scan_forward(lines, l, lines[l].len() as int, depth, open, close) == scan_forward(
            lines,
            l + 1,
            0,
            depth,
            open,
            close,
        ),
{
}

/// Scanning forward at nesting 1 over characters that are no bracket of
/// the pair, across any number of line ends, stops at the first closing
/// bracket, wherever it lies.
proof fn lemma_scan_forward_reaches(
    lines: Seq<Seq<char>>,
    l: int,
    c: int,
    open: char,
    close: char,
    l2: int,
    c2: int,
)
    requires
        0 <= l <= l2 < lines.len(),
        0 <= c,
        l == l2 ==> c <= c2,
        0 <= c2 < lines[l2].len(),
        lines[l2][c2] == close,
        open != close,
        forall|i: int, j: int|
            0 <= i < lines.len() && 0 <= j < lines[i].len() && (i > l || (i == l && j >= c)) && reads_before(
                i,
                j,
                l2,
                c2,
            ) ==> #[trigger] lines[i][j] != open && lines[i][j] != close,
    ensures
        scan_forward(lines, l, c, 1, open, close) == Some(TextPosition { line: l2 as usize, column: c2 as usize }),
    decreases l2 - l, if c <= lines[l].len() { lines[l].len() - c } else { 0 },
{
    if c >= lines[l].len() {
        assert(l < l2);
        lemma_scan_forward_reaches(lines, l + 1, 0, open, close, l2, c2);
    } else if l == l2 && c == c2 {
    } else {
        assert(lines[l][c] != open && lines[l][c] != close);
        lemma_scan_forward_reaches(lines, l, c + 1, open, close, l2, c2);
    }
}

/// Bracket matching from an opening bracket finds its closing partner, on
/// the same line or on any later one: with the cursor on `(`, `{` or `[`
/// and no bracket of that kind between it and the next closing one, the
/// match is that closing bracket.
pub proof fn law_opening_bracket_finds_its_close(v: BufferView, l2: int, c2: int)
    requires
        v.wf(),
        ({
            let l = v.cursor.line as int;
            let c = v.cursor.column as int;
            let o = v.lines[l][c];
            let cl = if o == '(' {
                ')'
            } else if o == '{' {
                '}'
            } else {
                ']'
            };
            &&& c < v.lines[l].len()
            &&& o == '(' || o == '{' || o == '['
            &&& reads_before(l, c, l2, c2)
            &&& l2 < v.lines.len()
            &&& 0 <= c2 < v.lines[l2].len()
            &&& v.lines[l2][c2] == cl
            &&& forall|i: int, j: int|
                0 <= i < v.lines.len() && 0 <= j < v.lines[i].len() && reads_before(l, c, i, j) && reads_before(
                    i,
                    j,
                    l2,
                    c2,
                ) ==> #[trigger] v.lines[i][j] != o && v.lines[i][j] != cl
        }),
    ensures
        v.matching_bracket() == Some(TextPosition { line: l2 as usize, column: c2 as usize }),
{
    let l = v.cursor.line as int;
    let c = v.cursor.column as int;
    let o = v.lines[l][c];
    let cl = if o == '(' {
        ')'
    } else if o == '{' {
        '}'
    } else {
        ']'
    };
    assert(bracket_pair(o) == Some((o, cl, true)));
    assert(scan_forward(v.lines, l, c, 0, o, cl) == scan_forward(v.lines, l, c + 1, 1, o, cl));
    assert forall|i: int, j: int|
        0 <= i < v.lines.len() && 0 <= j < v.lines[i].len() && (i > l || (i == l && j >= c + 1)) && reads_before(
            i,
            j,
            l2,
            c2,
        ) implies #[trigger] v.lines[i][j] != o && v.lines[i][j] != cl by {
        assert(reads_before(l, c, i, j));
    }
    lemma_scan_forward_reaches(v.lines, l, c + 1, o, cl, l2, c2);
}

proof fn lemma_depth_bound(k: int, c: int)
    by (nonlinear_arith)
    requires
        0 <= k <= usize::MAX,
        0 <= c <= usize::MAX,
        usize::MAX <= 0xffff_ffff_ffff_ffff,
    ensures
        k * usize::MAX + c < 0x1_0000_0000_0000_0000_0000_0000_0000_0000,
{
}

proof fn lemma_next_line(k: int)
    by (nonlinear_arith)
    ensures
        k * usize::MAX + usize::MAX == (k + 1) * usize::MAX,
{
}

impl TextBuffer {
    fn match_forward(&self, line0: usize, col: usize, open: char, close: char) -> (r: Option<
        TextPosition,
    >)
        requires
            self@.wf(),
            line0 < self@.lines.len(),
            col < self@.lines[line0 as int].len(),
            self@.lines[line0 as int][col as int] == open,
            open != close,
        ensures
            r == scan_forward(self@.lines, line0 as int, col as int, 0, open, close),
    {
        let ghost lv = self@.lines;
        let ghost m = usize::MAX as int;
        let mut l = line0;
        let mut c = col;
        let mut depth: u128 = 0;
        let ghost mut seen: int = 0;
        assert(lv.len() == self.lines@.len());
        while l < self.lines.len()
            invariant
                lv == self@.lines,
                lv.len() == self.lines@.len(),
                line0 <= l <= lv.len(),
                l < lv.len() ==> c <= lv[l as int].len(),
                lv[line0 as int][col as int] == open,
                col < lv[line0 as int].len(),
                open != close,
                scan_forward(lv, line0 as int, col as int, 0, open, close) == scan_forward(
                    lv,
                    l as int,
                    c as int,
                    depth as int,
                    open,
                    close,
                ),
                depth <= seen,
                0 <= seen <= (l - line0) * m + c,
                m == usize::MAX,
                depth >= 1 || (l == line0 && c == col),
            decreases lv.len() - l, if l < lv.len() {
                lv[l as int].len() - c
            } else {
                0
            },
        {
            if c >= self.lines[l].len() {
                proof {
                    lemma_next_line(l - line0);
                }
                l = l + 1;
                c = 0;
            } else {
                let ch = self.lines[l][c];
                proof {
                    assert(ch == lv[l as int][c as int]);
                    lemma_depth_bound(l - line0, c + 1);
                }
                if ch == open {
                    depth = depth + 1;
                } else if ch == close {
                    if depth == 1 {
                        return Some(TextPosition { line: l, column: c });
                    }
                    depth = depth - 1;
                }
                proof {
                    seen = seen + 1;
                }
                c = c + 1;
            }
        }
        None
    }

    fn match_backward(&self, line0: usize, col: usize, open: char, close: char) -> (r: Option<
        TextPosition,
    >)
        requires
            self@.wf(),
            line0 < self@.lines.len(),
            col < self@.lines[line0 as int].len(),
            self@.lines[line0 as int][col as int] == close,
            open != close,
        ensures
            r == scan_backward(self@.lines, line0 as int, col as int, 0, open, close),
    {
        let ghost lv = self@.lines;
        let ghost m = usize::MAX as int;
        let mut l = line0;
        let width = self.lines[line0].len();
        let mut left = col + 1;
        let mut depth: u128 = 0;
        let ghost mut seen: int = 0;
        assert(lv.len() == self.lines@.len());
        loop
            invariant
                lv == self@.lines,
                lv.len() == self.lines@.len(),
                l <= line0 < lv.len(),
                left <= lv[l as int].len(),
                lv[line0 as int][col as int] == close,
                col < lv[line0 as int].len(),
                open != close,
                scan_backward(lv, line0 as int, col as int, 0, open, close) == scan_backward(
                    lv,
                    l as int,
                    left - 1,
                    depth as int,
                    open,
                    close,
                ),
                depth <= seen,
                0 <= seen <= (line0 - l) * m + (m - left),
                m == usize::MAX,
                depth >= 1 || (l == line0 && left == col + 1),
            decreases l + 1, left,
        {
            if left == 0 {
                if l == 0 {
                    return None;
                }
                proof {
                    lemma_next_line(line0 - l);
                }
                l = l - 1;
                left = self.lines[l].len();
            } else {
                let idx = left - 1;
                let ch = self.lines[l][idx];
                proof {
                    assert(ch == lv[l as int][idx as int]);
                    lemma_depth_bound(line0 - l, (m - left) + 1);
                }
                if ch == close {
                    depth = depth + 1;
                } else if ch == open {
                    if depth == 1 {
                        return Some(TextPosition { line: l, column: idx });
                    }
                    depth = depth - 1;
                }
                proof {
                    seen = seen + 1;
                }
                left = idx;
            }
        }
    }

    /// The position of the bracket matching the one under the cursor,
    /// columns counted in characters (`matching_bracket`).
    pub fn find_matching_bracket(&self) -> (r: Option<TextPosition>)
        requires
            self@.wf(),
        ensures
            r == self@.matching_bracket(),
    {
        let line = &self.lines[self.cursor.line];
        let col = self.cursor.column;
        if col >= line.len() {
            return None;
        }
        let c = line[col];
        if c == '(' {
            self.match_forward(self.cursor.line, col, '(', ')')
        } else if c == '{' {
            self.match_forward(self.cursor.line, col, '{', '}')
        } else if c == '[' {
            self.match_forward(self.cursor.line, col, '[', ']')
        } else if c == ')' {
            self.match_backward(self.cursor.line, col, '(', ')')
        } else if c == '}' {
            self.match_backward(self.cursor.line, col, '{', '}')
        } else if c == ']' {
            self.match_backward(self.cursor.line, col, '[', ']')
        } else {
            None
        }
    }
}


// ---------------------------------------------------------------------------
// Search
// ---------------------------------------------------------------------------

/// `i` is the first start of `q` in `s` at or after `from`.
pub open spec fn first_match_at(s: Seq<char>, q: Seq<char>, from: int, i: int) -> bool {
    from <= i && occurs_at(s, q, i) && forall|j: int| from <= j < i ==> !occurs_at(s, q, j)
}

/// The first start of `q` in `s` at or after `from`.
pub open spec fn next_match(s: Seq<char>, q: Seq<char>, from: int) -> Option<int> {
    if exists|i: int| first_match_at(s, q, from, i) {
        Some(choose|i: int| first_match_at(s, q, from, i))
    } else {
        None
    }
}

/// Starts of the non-overlapping occurrences of `q` in `s` from `from` on,
/// each search resuming after the previous match.
pub open spec fn line_matches(s: Seq<char>, q: Seq<char>, from: int) -> Seq<int>
    decreases s.len() - from,
{
    if q.len() == 0 || from < 0 || from > s.len() {
        Seq::empty()
    } else {
        match next_match(s, q, from) {
            Some(i) => seq![i] + line_matches(s, q, i + q.len()),
            None => Seq::empty(),
        }
    }
}

/// Matches of `q` in the first `n` lines, as positions: the line and the
/// byte offset at which the match starts.
pub open spec fn buffer_matches(lines: Seq<Seq<char>>, q: Seq<char>, n: int) -> Seq<TextPosition>
    decreases n,
{
    if n <= 0 {
        Seq::empty()
    } else {
        buffer_matches(lines, q, n - 1) + line_matches(lines[n - 1], q, 0).map_values(
            |i: int| TextPosition { line: (n - 1) as usize, column: blen(lines[n - 1].take(i)) as usize },
        )
    }
}

proof fn lemma_first_match_unique(s: Seq<char>, q: Seq<char>, from: int, i: int)
    requires
        first_match_at(s, q, from, i),
    ensures
        next_match(s, q, from) == Some(i),
{
    let k = choose|k: int| first_match_at(s, q, from, k);
    assert(first_match_at(s, q, from, k));
    if k < i {
        assert(!occurs_at(s, q, k));
    }
    if i < k {
        assert(!occurs_at(s, q, i));
    }
}

impl TextBuffer {
    /// Positions of the non-overlapping occurrences of `query`, line by
    /// line; columns are byte offsets. Every line's byte length fits in
    /// `usize`, as that of any `String` does.
    pub fn search(&self, query: &str) -> (r: Vec<TextPosition>)
        requires
            self@.wf(),
            forall|l: int| 0 <= l < self@.lines.len() ==> blen(#[trigger] self@.lines[l]) <= usize::MAX,
        ensures
            r@ == buffer_matches(self@.lines, query@, self@.lines.len() as int),
            query@.len() == 0 ==> r@.len() == 0,
    {
        let q = chars_of(query);
        let ghost lv = self@.lines;
        let mut results: Vec<TextPosition> = Vec::new();
        if q.len() == 0 {
            proof {
                let n = lv.len() as int;
                assert forall|k: int| 0 <= k <= n implies buffer_matches(lv, q@, k).len() == 0 by {
                    lemma_no_matches(lv, q@, k);
                }
            }
            return results;
        }
        let mut l: usize = 0;
        assert(lv.len() == self.lines@.len());
        while l < self.lines.len()
            invariant
                lv == self@.lines,
                lv.len() == self.lines@.len(),
                q@ == query@,
                q@.len() > 0,
                l <= lv.len(),
                results@ == buffer_matches(lv, q@, l as int),
                forall|j: int| 0 <= j < lv.len() ==> blen(#[trigger] lv[j]) <= usize::MAX,
            decreases lv.len() - l,
        {
            let line = &self.lines[l];
            let ghost s = lv[l as int];
            let ghost found: Seq<int> = Seq::empty();
            let ghost base = results@;
            let mut start: usize = 0;
            let width = line.len();
            assert(line@ == s);
            loop
                invariant
                    line@ == s,
                    width == s.len(),
                    q@.len() > 0,
                    start <= s.len(),
                    line_matches(s, q@, 0) == found + line_matches(s, q@, start as int),
                    blen(s) <= usize::MAX,
                    results@ == base + found.map_values(
                        |i: int| TextPosition { line: l, column: blen(s.take(i)) as usize },
                    ),
                    forall|k: int| 0 <= k < found.len() ==> 0 <= #[trigger] found[k] <= usize::MAX,
                ensures
                    results@ == base + line_matches(s, q@, 0).map_values(
                        |i: int| TextPosition { line: l, column: blen(s.take(i)) as usize },
                    ),
                decreases s.len() - start,
            {
                match find_from(line, &q, start) {
                    Some(pos) => {
                        proof {
                            lemma_first_match_unique(s, q@, start as int, pos as int);
                        }
                        let ghost before = results@;
                        let column = prefix_bytes(line, pos);
                        results.push(TextPosition { line: l, column });
                        proof {
                            assert(line_matches(s, q@, start as int) == seq![pos as int]
                                + line_matches(s, q@, pos + q@.len()));
                            found = found.push(pos as int);
                            assert(results@ =~= base + found.map_values(
                                |i: int| TextPosition { line: l, column: blen(s.take(i)) as usize },
                            ));
                            assert(found + line_matches(s, q@, pos + q@.len()) =~= found.drop_last()
                                + (seq![pos as int] + line_matches(s, q@, pos + q@.len())));
                        }
                        start = pos + q.len();
                    },
                    None => {
                        proof {
                            assert(!exists|i: int| first_match_at(s, q@, start as int, i));
                            assert(line_matches(s, q@, start as int) =~= Seq::<int>::empty());
                            assert(found + Seq::<int>::empty() =~= found);
                        }
                        break ;
                    },
                }
            }
            proof {
                let n = l + 1;
                assert(buffer_matches(lv, q@, n as int) == buffer_matches(lv, q@, l as int)
                    + line_matches(lv[l as int], q@, 0).map_values(
                    |i: int| TextPosition { line: l, column: blen(lv[l as int].take(i)) as usize },
                ));
            }
            l = l + 1;
        }
        results
    }
}

proof fn lemma_no_matches(lines: Seq<Seq<char>>, q: Seq<char>, n: int)
    requires
        q.len() == 0,
    ensures
        buffer_matches(lines, q, n).len() == 0,
    decreases n,
{
    if n > 0 {
        lemma_no_matches(lines, q, n - 1);
    }
}


// ---------------------------------------------------------------------------
// Syntax tokens
// ---------------------------------------------------------------------------

#[derive(Debug, Clone, Copy, PartialEq, Eq, Structural)]
pub enum SyntaxTokenType {
    Keyword,
    String,
    Number,
    Punctuation,
    Comment,
    Identifier,
    Boolean,
    Null,
}

#[derive(Debug, Clone, Copy, PartialEq, Eq, Structural)]
pub struct SyntaxToken {
    pub token_type: SyntaxTokenType,
    pub line: usize,
    pub start_col: usize,
    pub end_col: usize,
}

pub open spec fn is_json_punctuation(c: char) -> bool {
    c == '{' || c == '}' || c == '[' || c == ']' || c == ':' || c == ','
}

pub open spec fn token(kind: SyntaxTokenType, line: int, start: int, end: int) -> SyntaxToken {
    SyntaxToken {
        token_type: kind,
        line: line as usize,
        start_col: start as usize,
        end_col: end as usize,
    }
}

/// Tokens of line `li` from column `col` on, `in_string` telling whether a
/// string opened at `string_start` is still open.
pub open spec fn line_tokens(
    line: Seq<char>,
    li: int,
    col: int,
    in_string: bool,
    string_start: int,
) -> Seq<SyntaxToken>
    decreases line.len() - col,
{
    if col < 0 || col >= line.len() {
        Seq::empty()
    } else if line[col] == '"' {
        if in_string {
            seq![token(SyntaxTokenType::String, li, string_start, col + 1)] + line_tokens(
                line,
                li,
                col + 1,
                false,
                string_start,
            )
        } else {
            line_tokens(line, li, col + 1, true, col)
        }
    } else if !in_string && is_json_punctuation(line[col]) {
        seq![token(SyntaxTokenType::Punctuation, li, col, col + 1)] + line_tokens(
            line,
            li,
            col + 1,
            in_string,
            string_start,
        )
    } else {
        line_tokens(line, li, col + 1, in_string, string_start)
    }
}

/// Tokens of the first `n` lines: strings, and punctuation outside strings.
pub open spec fn json_tokens(lines: Seq<Seq<char>>, n: int) -> Seq<SyntaxToken>
    decreases n,
{
    if n <= 0 {
        Seq::empty()
    } else {
        json_tokens(lines, n - 1) + line_tokens(lines[n - 1], n - 1, 0, false, 0)
    }
}

/// String and punctuation tokens of a JSON text, line by line.
pub fn tokenize_json(text: &str) -> (r: Vec<SyntaxToken>)
    ensures
        r@ == json_tokens(lines_seq(text@), lines_seq(text@).len() as int),
{
    let chars = chars_of(text);
    let lines = split_lines(&chars);
    let ghost lv = views(lines@);
    let mut tokens: Vec<SyntaxToken> = Vec::new();
    let mut li: usize = 0;
    assert(lv.len() == lines@.len());
    while li < lines.len()
        invariant
            lv == views(lines@),
            lv == lines_seq(text@),
            lv.len() == lines@.len(),
            li <= lv.len(),
            tokens@ == json_tokens(lv, li as int),
        decreases lv.len() - li,
    {
        let line = &lines[li];
        let ghost s = lv[li as int];
        let ghost base = tokens@;
        let mut in_string = false;
        let mut string_start: usize = 0;
        let mut col: usize = 0;
        assert(line@ == s);
        while col < line.len()
            invariant
                line@ == s,
                col <= s.len(),
                string_start <= col,
                tokens@ + line_tokens(s, li as int, col as int, in_string, string_start as int)
                    == base + line_tokens(s, li as int, 0, false, 0),
            decreases s.len() - col,
        {
            let c = line[col];
            let ghost before = tokens@;
            if c == '"' {
                if in_string {
                    tokens.push(
                        SyntaxToken {
                            token_type: SyntaxTokenType::String,
                            line: li,
                            start_col: string_start,
                            end_col: col + 1,
                        },
                    );
                    in_string = false;
                    proof {
                        assert(tokens@ + line_tokens(s, li as int, col + 1, false, string_start as int)
                            =~= before + line_tokens(s, li as int, col as int, true, string_start as int));
                    }
                } else {
                    in_string = true;
                    string_start = col;
                }
            } else if !in_string && (c == '{' || c == '}' || c == '[' || c == ']' || c == ':' || c
                == ',') {
                tokens.push(
                    SyntaxToken {
                        token_type: SyntaxTokenType::Punctuation,
                        line: li,
                        start_col: col,
                        end_col: col + 1,
                    },
                );
                proof {
                    assert(tokens@ + line_tokens(s, li as int, col + 1, in_string, string_start as int)
                        =~= before + line_tokens(s, li as int, col as int, in_string, string_start as int));
                }
            }
            col = col + 1;
        }
        proof {
            assert(tokens@ + Seq::<SyntaxToken>::empty() =~= tokens@);
        }
        li = li + 1;
    }
    tokens
}

} // verus!
