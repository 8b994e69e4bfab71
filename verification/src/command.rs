//! Command registry, keybindings, and command palette search.
//!
//! Namespaced command identifiers, platform-aware shortcut labels, action
//! dispatch, and palette search over registered commands.
use vstd::prelude::*;
use std::sync::Arc;
use crate::text::{
    ascii_lowered, chars_of, contains, contains_seq, is_ascii_text, lemma_seq_le_antisymmetric, lemma_seq_le_total,
    lemma_seq_le_transitive, lowercase, seq_le, str_eq, str_le, to_lowercase,
};

verus! {

broadcast use vstd::seq_lib::group_to_multiset_ensures;

/// Why a command could not run.
#[derive(Debug)]
pub enum CommandError {
    NotFound(String),
    Disabled(String),
    ExecutionFailed(String),
}

impl CommandError {
    /// The text of the error.
    pub fn message(&self) -> (m: String)
        ensures
            m@ == match self {
                CommandError::NotFound(id) => "Command '"@ + id@ + "' not found in registry"@,
                CommandError::Disabled(id) => "Command '"@ + id@ + "' is currently disabled"@,
                CommandError::ExecutionFailed(why) => "Execution failed: "@ + why@,
            },
    {
        match self {
            CommandError::NotFound(id) => {
                let mut m = "Command '".to_owned();
                m.push_str(id.as_str());
                m.push_str("' not found in registry");
                m
            },
            CommandError::Disabled(id) => {
                let mut m = "Command '".to_owned();
                m.push_str(id.as_str());
                m.push_str("' is currently disabled");
                m
            },
            CommandError::ExecutionFailed(why) => {
                let mut m = "Execution failed: ".to_owned();
                m.push_str(why.as_str());
                m
            },
        }
    }
}

/// Namespaced command identifier, such as `request.send` or `tab.close`.
#[derive(Debug, Clone, PartialEq, Eq, Hash)]
pub struct CommandId(pub String);

impl CommandId {
    pub fn new(id: &str) -> (r: Self)
        ensures
            r.0@ == id@,
    {
        CommandId(id.to_owned())
    }

    pub fn as_str(&self) -> (r: &str)
        ensures
            r@ == self.0@,
    {
        self.0.as_str()
    }

    /// The identifier as text.
    pub fn to_string(&self) -> (r: String)
        ensures
            r@ == self.0@,
    {
        self.0.clone()
    }

    fn copy(&self) -> (r: Self)
        ensures
            r.0@ == self.0@,
    {
        CommandId(self.0.clone())
    }
}

/// Keyboard modifiers; `primary` is Cmd on macOS and Ctrl elsewhere.
#[derive(Debug, Clone, Copy, PartialEq, Eq, Structural, Hash, Default)]
pub struct Modifiers {
    pub primary: bool,
    pub shift: bool,
    pub alt: bool,
    pub ctrl: bool,
}

/// Keyboard shortcut.
#[derive(Debug, Clone, PartialEq, Eq, Hash)]
pub struct KeyBinding {
    pub modifiers: Modifiers,
    pub key: String,
}

pub ghost struct BindingView {
    pub modifiers: Modifiers,
    pub key: Seq<char>,
}

impl View for KeyBinding {
    type V = BindingView;

    open spec fn view(&self) -> BindingView {
        BindingView { modifiers: self.modifiers, key: self.key@ }
    }
}

/// The parts of a shortcut label, in order.
pub open spec fn binding_parts(b: BindingView, macos: bool) -> Seq<Seq<char>> {
    let m = b.modifiers;
    let mods: Seq<Seq<char>> = if macos {
        (if m.ctrl { seq!["\u{2303}"@] } else { Seq::empty() }) + (if m.alt {
            seq!["\u{2325}"@]
        } else {
            Seq::empty()
        }) + (if m.shift { seq!["\u{21e7}"@] } else { Seq::empty() }) + (if m.primary {
            seq!["\u{2318}"@]
        } else {
            Seq::empty()
        })
    } else {
        (if m.primary || m.ctrl { seq!["Ctrl"@] } else { Seq::empty() }) + (if m.alt {
            seq!["Alt"@]
        } else {
            Seq::empty()
        }) + (if m.shift { seq!["Shift"@] } else { Seq::empty() })
    };
    mods.push(b.key)
}

/// `parts` joined with `sep` between consecutive items.
pub open spec fn joined(parts: Seq<Seq<char>>, sep: Seq<char>) -> Seq<char>
    decreases parts.len(),
{
    if parts.len() == 0 {
        Seq::empty()
    } else if parts.len() == 1 {
        parts[0]
    } else {
        joined(parts.drop_last(), sep) + sep + parts.last()
    }
}

fn push_part(out: &mut String, parts: Ghost<Seq<Seq<char>>>, first: bool, part: &str)
    requires
        old(out)@ == joined(parts@, "+"@),
        first == (parts@.len() == 0),
    ensures
        final(out)@ == joined(parts@.push(part@), "+"@),
{
    if !first {
        out.push('+');
        proof {
            reveal_strlit("+");
        }
    }
    out.push_str(part);
    proof {
        let p = parts@.push(part@);
        assert(p.drop_last() =~= parts@);
        if parts@.len() == 0 {
            assert(final(out)@ =~= part@);
        }
    }
}

impl KeyBinding {
    /// The key with the primary modifier.
    pub fn primary(key: &str) -> (r: Self)
        ensures
            r@ == (BindingView {
                modifiers: Modifiers { primary: true, shift: false, alt: false, ctrl: false },
                key: key@,
            }),
    {
        KeyBinding {
            modifiers: Modifiers { primary: true, shift: false, alt: false, ctrl: false },
            key: key.to_owned(),
        }
    }

    /// The key with the primary and shift modifiers.
    pub fn primary_shift(key: &str) -> (r: Self)
        ensures
            r@ == (BindingView {
                modifiers: Modifiers { primary: true, shift: true, alt: false, ctrl: false },
                key: key@,
            }),
    {
        KeyBinding {
            modifiers: Modifiers { primary: true, shift: true, alt: false, ctrl: false },
            key: key.to_owned(),
        }
    }

    /// The label shown in menus and tooltips: macOS modifier symbols, or
    /// `Ctrl`, `Alt`, `Shift` elsewhere, then the key, joined with `+`.
    pub fn display_string(&self, macos: bool) -> (r: String)
        ensures
            r@ == joined(binding_parts(self@, macos), "+"@),
    {
        let m = self.modifiers;
        let mut out = String::new();
        let ghost mut parts: Seq<Seq<char>> = Seq::empty();
        let mut first = true;
        if macos {
            if m.ctrl {
                push_part(&mut out, Ghost(parts), first, "\u{2303}");
                proof {
                    parts = parts.push("\u{2303}"@);
                }
                first = false;
            }
            if m.alt {
                push_part(&mut out, Ghost(parts), first, "\u{2325}");
                proof {
                    parts = parts.push("\u{2325}"@);
                }
                first = false;
            }
            if m.shift {
                push_part(&mut out, Ghost(parts), first, "\u{21e7}");
                proof {
                    parts = parts.push("\u{21e7}"@);
                }
                first = false;
            }
            if m.primary {
                push_part(&mut out, Ghost(parts), first, "\u{2318}");
                proof {
                    parts = parts.push("\u{2318}"@);
                }
                first = false;
            }
        } else {
            if m.primary || m.ctrl {
                push_part(&mut out, Ghost(parts), first, "Ctrl");
                proof {
                    parts = parts.push("Ctrl"@);
                }
                first = false;
            }
            if m.alt {
                push_part(&mut out, Ghost(parts), first, "Alt");
                proof {
                    parts = parts.push("Alt"@);
                }
                first = false;
            }
            if m.shift {
                push_part(&mut out, Ghost(parts), first, "Shift");
                proof {
                    parts = parts.push("Shift"@);
                }
                first = false;
            }
        }
        push_part(&mut out, Ghost(parts), first, self.key.as_str());
        proof {
            let full = binding_parts(self@, macos);
            assert(parts.push(self.key@) =~= full);
        }
        out
    }

    fn copy(&self) -> (r: Self)
        ensures
            r@ == self@,
    {
        KeyBinding { modifiers: self.modifiers, key: self.key.clone() }
    }
}

fn same_binding(a: &KeyBinding, b: &KeyBinding) -> (r: bool)
    ensures
        r == (a@ == b@),
{
    a.modifiers == b.modifiers && str_eq(a.key.as_str(), b.key.as_str())
}

/// Metadata describing a command.
pub struct CommandDescriptor {
    pub id: CommandId,
    pub title: String,
    pub category: String,
    pub description: Option<String>,
    pub default_keybinding: Option<KeyBinding>,
    pub enabled: bool,
}

pub ghost struct DescriptorView {
    pub id: Seq<char>,
    pub title: Seq<char>,
    pub category: Seq<char>,
    pub description: Option<Seq<char>>,
    pub default_keybinding: Option<BindingView>,
    pub enabled: bool,
}

impl View for CommandDescriptor {
    type V = DescriptorView;

    open spec fn view(&self) -> DescriptorView {
        DescriptorView {
            id: self.id.0@,
            title: self.title@,
            category: self.category@,
            description: match self.description {
                Some(d) => Some(d@),
                None => None,
            },
            default_keybinding: match self.default_keybinding {
                Some(b) => Some(b@),
                None => None,
            },
            enabled: self.enabled,
        }
    }
}

impl CommandDescriptor {
    /// An enabled command with no description and no keybinding.
    pub fn new(id: &str, title: &str, category: &str) -> (r: Self)
        ensures
            r@ == (DescriptorView {
                id: id@,
                title: title@,
                category: category@,
                description: None,
                default_keybinding: None,
                enabled: true,
            }),
    {
        CommandDescriptor {
            id: CommandId::new(id),
            title: title.to_owned(),
            category: category.to_owned(),
            description: None,
            default_keybinding: None,
            enabled: true,
        }
    }

    pub fn with_keybinding(self, keybinding: KeyBinding) -> (r: Self)
        ensures
            r@ == (DescriptorView { default_keybinding: Some(keybinding@), ..self@ }),
    {
        CommandDescriptor { default_keybinding: Some(keybinding), ..self }
    }

    pub fn with_description(self, desc: &str) -> (r: Self)
        ensures
            r@ == (DescriptorView { description: Some(desc@), ..self@ }),
    {
        CommandDescriptor { description: Some(desc.to_owned()), ..self }
    }

    pub fn copy(&self) -> (r: Self)
        ensures
            r@ == self@,
    {
        CommandDescriptor {
            id: self.id.copy(),
            title: self.title.clone(),
            category: self.category.clone(),
            description: match &self.description {
                Some(d) => Some(d.clone()),
                None => None,
            },
            default_keybinding: match &self.default_keybinding {
                Some(b) => Some(b.copy()),
                None => None,
            },
            enabled: self.enabled,
        }
    }
}

/// Action run when a command is dispatched.
pub trait CommandAction {
    /// Whether the action may be run.
    spec fn can_execute(&self) -> bool;

    /// Whether `r` is a result the action may give.
    spec fn executes_to(&self, r: Result<(), CommandError>) -> bool;

    fn execute(&self) -> (r: Result<(), CommandError>)
        requires
            self.can_execute(),
        ensures
            self.executes_to(r),
    ;
}

impl<F: Fn() -> Result<(), CommandError>> CommandAction for F {
    open spec fn can_execute(&self) -> bool {
        call_requires(*self, ())
    }

    /// A closure gives what its own contract allows.
    open spec fn executes_to(&self, r: Result<(), CommandError>) -> bool {
        call_ensures(*self, (), r)
    }

    fn execute(&self) -> (r: Result<(), CommandError>) {
        (self)()
    }
}

struct RegisteredCommand {
    descriptor: CommandDescriptor,
    action: Option<Arc<dyn CommandAction>>,
}

spec fn action_ok(c: RegisteredCommand) -> bool {
    match c.action {
        Some(a) => a.can_execute(),
        None => true,
    }
}

fn wrap_action<T>(action: T) -> (r: Option<T>)
    ensures
        r == Some(action),
{
    Some(action)
}


// ---------------------------------------------------------------------------
// Registry model
// ---------------------------------------------------------------------------

/// Replaces the entry with the same id, or appends.
pub open spec fn upsert(rs: Seq<(DescriptorView, bool)>, x: (DescriptorView, bool)) -> Seq<
    (DescriptorView, bool),
> {
    if exists|i: int| 0 <= i < rs.len() && #[trigger] rs[i].0.id == x.0.id {
        rs.update(choose|i: int| 0 <= i < rs.len() && #[trigger] rs[i].0.id == x.0.id, x)
    } else {
        rs.push(x)
    }
}

/// Binds `b` to `id`, replacing an earlier binding of `b`.
pub open spec fn bind(bs: Seq<(BindingView, Seq<char>)>, b: BindingView, id: Seq<char>) -> Seq<
    (BindingView, Seq<char>),
> {
    if exists|i: int| 0 <= i < bs.len() && #[trigger] bs[i].0 == b {
        bs.update(choose|i: int| 0 <= i < bs.len() && #[trigger] bs[i].0 == b, (b, id))
    } else {
        bs.push((b, id))
    }
}

/// What the palette matches: the lowercased query in the lowercased title,
/// category or id.
pub open spec fn palette_match(d: DescriptorView, q: Seq<char>) -> bool {
    contains_seq(lowercase(d.title), q) || contains_seq(lowercase(d.category), q)
        || contains_seq(lowercase(d.id), q)
}

/// Order of palette results (`by_category` false: by title) or of the full
/// list (`by_category` true: by category, then title).
pub open spec fn desc_le(a: DescriptorView, b: DescriptorView, by_category: bool) -> bool {
    if by_category {
        !seq_le(b.category, a.category) || (a.category == b.category && seq_le(a.title, b.title))
    } else {
        seq_le(a.title, b.title)
    }
}

pub open spec fn sorted_by(s: Seq<DescriptorView>, by_category: bool) -> bool {
    forall|i: int, j: int| 0 <= i < j < s.len() ==> desc_le(s[i], s[j], by_category)
}

pub open spec fn dviews(s: Seq<CommandDescriptor>) -> Seq<DescriptorView> {
    s.map_values(|d: CommandDescriptor| d@)
}

proof fn lemma_desc_le_total(a: DescriptorView, b: DescriptorView, by_category: bool)
    ensures
        desc_le(a, b, by_category) || desc_le(b, a, by_category),
{
    lemma_seq_le_total(a.title, b.title);
    lemma_seq_le_total(a.category, b.category);
    if seq_le(a.category, b.category) && seq_le(b.category, a.category) {
        lemma_seq_le_antisymmetric(a.category, b.category);
    }
}

proof fn lemma_desc_le_transitive(
    a: DescriptorView,
    b: DescriptorView,
    c: DescriptorView,
    by_category: bool,
)
    requires
        desc_le(a, b, by_category),
        desc_le(b, c, by_category),
    ensures
        desc_le(a, c, by_category),
{
    if by_category {
        lemma_seq_le_total(a.category, b.category);
        lemma_seq_le_total(b.category, c.category);
        lemma_seq_le_total(a.category, c.category);
        if seq_le(c.category, a.category) {
            // a.category <= b.category <= c.category <= a.category: all equal
            if a.category != b.category {
                if seq_le(b.category, a.category) {
                    lemma_seq_le_antisymmetric(a.category, b.category);
                }
                lemma_seq_le_transitive(c.category, a.category, b.category);
            }
            if b.category != c.category {
                if seq_le(c.category, b.category) {
                    lemma_seq_le_antisymmetric(b.category, c.category);
                }
                lemma_seq_le_transitive(b.category, c.category, a.category);
            }
            if a.category == b.category && b.category == c.category {
                lemma_seq_le_transitive(a.title, b.title, c.title);
            }
        }
    } else {
        lemma_seq_le_transitive(a.title, b.title, c.title);
    }
}

fn descriptor_le(a: &CommandDescriptor, b: &CommandDescriptor, by_category: bool) -> (r: bool)
    ensures
        r == desc_le(a@, b@, by_category),
{
    if by_category {
        !str_le(b.category.as_str(), a.category.as_str()) || (str_eq(
            a.category.as_str(),
            b.category.as_str(),
        ) && str_le(a.title.as_str(), b.title.as_str()))
    } else {
        str_le(a.title.as_str(), b.title.as_str())
    }
}

/// Sorts descriptors stably: by title, or by category then title.
fn sort_descriptors(items: Vec<CommandDescriptor>, by_category: bool) -> (r: Vec<CommandDescriptor>)
    ensures
        dviews(r@).to_multiset() == dviews(items@).to_multiset(),
        sorted_by(dviews(r@), by_category),
{
    let mut out: Vec<CommandDescriptor> = Vec::new();
    let mut i: usize = 0;
    assert(dviews(items@).take(0) =~= Seq::<DescriptorView>::empty());
    assert(dviews(out@) =~= Seq::<DescriptorView>::empty());
    while i < items.len()
        invariant
            i <= items.len(),
            dviews(out@).to_multiset() == dviews(items@).take(i as int).to_multiset(),
            sorted_by(dviews(out@), by_category),
        decreases items.len() - i,
    {
        let x = items[i].copy();
        let mut p: usize = 0;
        while p < out.len() && descriptor_le(&out[p], &x, by_category)
            invariant
                p <= out.len(),
                forall|k: int| 0 <= k < p ==> desc_le(dviews(out@)[k], x@, by_category),
            decreases out.len() - p,
        {
            p = p + 1;
        }
        let ghost before = dviews(out@);
        proof {
            if p < out.len() {
                lemma_desc_le_total(before[p as int], x@, by_category);
            }
        }
        out.insert(p, x);
        proof {
            let after = dviews(out@);
            assert(after =~= before.insert(p as int, x@));
            assert(dviews(items@).take(i + 1) =~= dviews(items@).take(i as int).push(x@));
            assert forall|a: int, b: int| 0 <= a < b < after.len() implies desc_le(
                after[a],
                after[b],
                by_category,
            ) by {
                if b == p {
                    assert(after[a] == before[a]);
                } else if a == p {
                    assert(after[b] == before[b - 1]);
                    if b - 1 > p {
                        lemma_desc_le_transitive(x@, before[p as int], before[b - 1], by_category);
                    }
                } else {
                    let a0 = if a < p { a } else { a - 1 };
                    let b0 = if b < p { b } else { b - 1 };
                    assert(after[a] == before[a0]);
                    assert(after[b] == before[b0]);
                }
            }
        }
        i = i + 1;
    }
    assert(dviews(items@).take(i as int) =~= dviews(items@));
    out
}

/// Central registry: command lookup, palette search, and dispatch.
pub struct CommandRegistry {
    commands: Vec<RegisteredCommand>,
    keymap: Vec<(KeyBinding, CommandId)>,
}

impl CommandRegistry {
    /// The registered commands, in registration order, each with whether
    /// it has an action.
    pub closed spec fn registered(self) -> Seq<(DescriptorView, bool)> {
        self.commands@.map_values(|c: RegisteredCommand| (c.descriptor@, c.action is Some))
    }

    /// The keymap: each binding with the id of its command.
    pub closed spec fn bindings(self) -> Seq<(BindingView, Seq<char>)> {
        self.keymap@.map_values(|e: (KeyBinding, CommandId)| (e.0@, e.1.0@))
    }

    /// Ids and bindings are unique, and every action may be run.
    pub closed spec fn wf(self) -> bool {
        &&& forall|i: int, j: int|
            0 <= i < j < self.registered().len() ==> #[trigger] self.registered()[i].0.id
                != #[trigger] self.registered()[j].0.id
        &&& forall|i: int, j: int|
            0 <= i < j < self.bindings().len() ==> #[trigger] self.bindings()[i].0
                != #[trigger] self.bindings()[j].0
        &&& forall|i: int| 0 <= i < self.commands@.len() ==> action_ok(#[trigger] self.commands@[i])
    }

    /// The command registered under `id`, with whether it has an action.
    pub open spec fn lookup(self, id: Seq<char>) -> Option<(DescriptorView, bool)> {
        if exists|i: int| 0 <= i < self.registered().len() && #[trigger] self.registered()[i].0.id == id {
            Some(
                self.registered()[choose|i: int|
                    0 <= i < self.registered().len() && #[trigger] self.registered()[i].0.id == id],
            )
        } else {
            None
        }
    }

    /// The action registered under `id`, if any.
    pub closed spec fn action_of(self, id: Seq<char>) -> Option<Arc<dyn CommandAction>> {
        if exists|i: int| 0 <= i < self.registered().len() && #[trigger] self.registered()[i].0.id == id {
            self.commands@[choose|i: int|
                0 <= i < self.registered().len() && #[trigger] self.registered()[i].0.id == id].action
        } else {
            None
        }
    }

    proof fn lemma_action_at(self, i: int)
        requires
            self.wf(),
            0 <= i < self.commands@.len(),
        ensures
            self.action_of(self.registered()[i].0.id) == self.commands@[i].action,
            self.registered()[i].1 == (self.commands@[i].action is Some),
    {
        let id = self.registered()[i].0.id;
        let k = choose|k: int| 0 <= k < self.registered().len() && #[trigger] self.registered()[k].0.id == id;
        if k != i {
            if k < i {
                assert(self.registered()[k].0.id != self.registered()[i].0.id);
            } else {
                assert(self.registered()[i].0.id != self.registered()[k].0.id);
            }
        }
    }

    proof fn lemma_action_absent(self, id: Seq<char>)
        requires
            forall|i: int| 0 <= i < self.registered().len() ==> #[trigger] self.registered()[i].0.id != id,
        ensures
            self.action_of(id) is None,
    {
    }

    /// The id bound to `b`.
    pub open spec fn bound_to(self, b: BindingView) -> Option<Seq<char>> {
        if exists|i: int| 0 <= i < self.bindings().len() && #[trigger] self.bindings()[i].0 == b {
            Some(
                self.bindings()[choose|i: int|
                    0 <= i < self.bindings().len() && #[trigger] self.bindings()[i].0 == b].1,
            )
        } else {
            None
        }
    }

    fn command_index(&self, id: &str) -> (r: Option<usize>)
        requires
            self.wf(),
        ensures
            match r {
                Some(i) => i < self.registered().len() && self.registered()[i as int].0.id == id@
                    && self.lookup(id@) == Some(self.registered()[i as int]),
                None => forall|i: int|
                    0 <= i < self.registered().len() ==> #[trigger] self.registered()[i].0.id
                        != id@,
            },
    {
        let mut i: usize = 0;
        while i < self.commands.len()
            invariant
                self.wf(),
                i <= self.commands.len(),
                self.registered().len() == self.commands@.len(),
                forall|k: int| 0 <= k < i ==> #[trigger] self.registered()[k].0.id != id@,
            decreases self.commands.len() - i,
        {
            if str_eq(self.commands[i].descriptor.id.0.as_str(), id) {
                proof {
                    assert(self.registered()[i as int].0.id == id@);
                    let k = choose|k: int|
                        0 <= k < self.registered().len() && #[trigger] self.registered()[k].0.id
                            == id@;
                    if k != i {
                        if k < i {
                            assert(self.registered()[k].0.id != self.registered()[i as int].0.id);
                        } else {
                            assert(self.registered()[i as int].0.id != self.registered()[k].0.id);
                        }
                    }
                }
                return Some(i);
            }
            i = i + 1;
        }
        None
    }

    fn binding_index(&self, b: &KeyBinding) -> (r: Option<usize>)
        requires
            self.wf(),
        ensures
            match r {
                Some(i) => i < self.bindings().len() && self.bindings()[i as int].0 == b@
                    && self.bound_to(b@) == Some(self.bindings()[i as int].1),
                None => forall|i: int|
                    0 <= i < self.bindings().len() ==> #[trigger] self.bindings()[i].0 != b@,
            },
    {
        let mut i: usize = 0;
        while i < self.keymap.len()
            invariant
                self.wf(),
                i <= self.keymap.len(),
                self.bindings().len() == self.keymap@.len(),
                forall|k: int| 0 <= k < i ==> #[trigger] self.bindings()[k].0 != b@,
            decreases self.keymap.len() - i,
        {
            if same_binding(&self.keymap[i].0, b) {
                proof {
                    assert(self.bindings()[i as int].0 == b@);
                    let k = choose|k: int|
                        0 <= k < self.bindings().len() && #[trigger] self.bindings()[k].0 == b@;
                    if k != i {
                        if k < i {
                            assert(self.bindings()[k].0 != self.bindings()[i as int].0);
                        } else {
                            assert(self.bindings()[i as int].0 != self.bindings()[k].0);
                        }
                    }
                }
                return Some(i);
            }
            i = i + 1;
        }
        None
    }

    fn bind_key(&mut self, binding: KeyBinding, id: CommandId)
        requires
            old(self).wf(),
        ensures
            final(self).wf(),
            final(self).registered() == old(self).registered(),
            final(self).commands@ == old(self).commands@,
            final(self).bindings() == bind(old(self).bindings(), binding@, id.0@),
    {
        let ghost bs = self.bindings();
        let ghost b = binding@;
        let ghost idv = id.0@;
        match self.binding_index(&binding) {
            Some(i) => {
                self.keymap.set(i, (binding, id));
                proof {
                    let k = choose|k: int| 0 <= k < bs.len() && #[trigger] bs[k].0 == b;
                    assert(bs[i as int].0 == b);
                    if k != i {
                        if k < i {
                            assert(bs[k].0 != bs[i as int].0);
                        } else {
                            assert(bs[i as int].0 != bs[k].0);
                        }
                    }
                    assert(self.bindings() =~= bs.update(i as int, (b, idv)));
                }
            },
            None => {
                self.keymap.push((binding, id));
                proof {
                    assert(self.bindings() =~= bs.push((b, idv)));
                }
            },
        }
        proof {
            assert(self.registered() =~= old(self).registered());
            assert(self.commands@ == old(self).commands@);
        }
    }

    fn add_command(&mut self, descriptor: CommandDescriptor, action: Option<Arc<dyn CommandAction>>)
        requires
            old(self).wf(),
            action matches Some(a) ==> a.can_execute(),
        ensures
            final(self).wf(),
            final(self).bindings() == old(self).bindings(),
            final(self).registered() == upsert(old(self).registered(), (descriptor@, action is Some)),
            final(self).action_of(descriptor@.id) == action,
            forall|id: Seq<char>|
                id != descriptor@.id ==> #[trigger] final(self).action_of(id) == old(self).action_of(id),
    {
        let ghost rs = self.registered();
        let ghost before = *self;
        let ghost cs = self.commands@;
        let ghost x = (descriptor@, action is Some);
        let id = descriptor.id.0.clone();
        let entry = RegisteredCommand { descriptor, action };
        assert(action_ok(entry));
        match self.command_index(id.as_str()) {
            Some(i) => {
                self.commands.set(i, entry);
                proof {
                    let k = choose|k: int| 0 <= k < rs.len() && #[trigger] rs[k].0.id == x.0.id;
                    assert(rs[i as int].0.id == x.0.id);
                    if k != i {
                        if k < i {
                            assert(rs[k].0.id != rs[i as int].0.id);
                        } else {
                            assert(rs[i as int].0.id != rs[k].0.id);
                        }
                    }
                    assert(self.registered() =~= rs.update(i as int, x));
                    assert(self.commands@ == cs.update(i as int, entry));
                }
            },
            None => {
                self.commands.push(entry);
                proof {
                    assert(self.registered() =~= rs.push(x));
                    assert(self.commands@ == cs.push(entry));
                }
            },
        }
        proof {
            assert(self.bindings() =~= old(self).bindings());
            assert forall|k: int| 0 <= k < self.commands@.len() implies action_ok(
                #[trigger] self.commands@[k],
            ) by {
                if k < cs.len() && self.commands@[k] != entry {
                    assert(self.commands@[k] == cs[k]);
                }
            }
            assert forall|a: int, b: int|
                0 <= a < b < self.registered().len() implies #[trigger] self.registered()[a].0.id
                != #[trigger] self.registered()[b].0.id by {
                if self.registered().len() == rs.len() {
                    let i = choose|i: int| 0 <= i < rs.len() && #[trigger] rs[i].0.id == x.0.id;
                    if a != i && b != i {
                        assert(self.registered()[a] == rs[a]);
                        assert(self.registered()[b] == rs[b]);
                    } else if a == i {
                        assert(self.registered()[b] == rs[b]);
                        assert(rs[a].0.id != rs[b].0.id);
                    } else {
                        assert(self.registered()[a] == rs[a]);
                        assert(rs[a].0.id != rs[b].0.id);
                    }
                } else {
                    if b < rs.len() {
                        assert(self.registered()[a] == rs[a]);
                        assert(self.registered()[b] == rs[b]);
                    } else {
                        assert(self.registered()[a] == rs[a]);
                    }
                }
            }
            let j: int = if self.registered().len() == rs.len() {
                choose|i: int| 0 <= i < rs.len() && #[trigger] rs[i].0.id == x.0.id
            } else {
                rs.len() as int
            };
            assert(self.commands@[j] == entry);
            assert(self.registered()[j].0.id == x.0.id);
            self.lemma_action_at(j);
            assert forall|id: Seq<char>| id != x.0.id implies #[trigger] self.action_of(id)
                == before.action_of(id) by {
                if exists|k: int| 0 <= k < rs.len() && #[trigger] rs[k].0.id == id {
                    let k = choose|k: int| 0 <= k < rs.len() && #[trigger] rs[k].0.id == id;
                    assert(k != j);
                    assert(self.commands@[k] == cs[k]);
                    assert(self.registered()[k] == rs[k]);
                    self.lemma_action_at(k);
                    before.lemma_action_at(k);
                } else {
                    assert forall|i: int| 0 <= i < self.registered().len() implies #[trigger] self.registered()[i].0.id != id by {
                        if i != j {
                            assert(self.registered()[i] == rs[i]);
                        }
                    }
                    self.lemma_action_absent(id);
                }
            }
        }
    }
}


/// The commands every registry starts with, in order.
pub open spec fn standard_commands() -> Seq<(DescriptorView, bool)> {
    seq![
        (standard("request.send"@, "Send Request"@, "Request"@, "Execute the active HTTP or protocol request"@, primary_key("Enter"@)), false),
        (standard("request.cancel"@, "Cancel Request"@, "Request"@, "Cancel current in-flight request execution"@, primary_key("Escape"@)), false),
        (standard("tab.close"@, "Close Tab"@, "View"@, "Close the active workbench tab"@, primary_key("w"@)), false),
        (standard("workbench.command_palette"@, "Open Command Palette"@, "View"@, "Show the command palette search modal"@, BindingView { modifiers: Modifiers { primary: true, shift: true, alt: false, ctrl: false }, key: "P"@ }), false),
        (standard("workspace.open"@, "Open Workspace..."@, "Workspace"@, "Select and open a local PacketSmith workspace directory"@, primary_key("o"@)), false),
        (standard("pane.split_vertical"@, "Split Editor Right"@, "View"@, "Split current active pane vertically"@, primary_key("\\"@)), false),
    ]
}

pub open spec fn primary_key(key: Seq<char>) -> BindingView {
    BindingView { modifiers: Modifiers { primary: true, shift: false, alt: false, ctrl: false }, key }
}

pub open spec fn standard(
    id: Seq<char>,
    title: Seq<char>,
    category: Seq<char>,
    description: Seq<char>,
    binding: BindingView,
) -> DescriptorView {
    DescriptorView {
        id,
        title,
        category,
        description: Some(description),
        default_keybinding: Some(binding),
        enabled: true,
    }
}

proof fn lemma_standard_distinct()
    ensures
        forall|i: int, j: int|
            0 <= i < j < 6 ==> (#[trigger] standard_commands()[i]).0.id != (
            #[trigger] standard_commands()[j]).0.id && standard_commands()[i].0.default_keybinding->0
                != standard_commands()[j].0.default_keybinding->0,
        standard_commands().len() == 6,
        forall|i: int| 0 <= i < 6 ==> (#[trigger] standard_commands()[i]).0.default_keybinding is Some,
{
    reveal_strlit("request.send");
    reveal_strlit("request.cancel");
    reveal_strlit("tab.close");
    reveal_strlit("workbench.command_palette");
    reveal_strlit("workspace.open");
    reveal_strlit("pane.split_vertical");
    reveal_strlit("Enter");
    reveal_strlit("Escape");
    reveal_strlit("w");
    reveal_strlit("P");
    reveal_strlit("o");
    reveal_strlit("\\");
    let std = standard_commands();
    assert(std[0].0.id.len() == 12);
    assert(std[1].0.id.len() == 14);
    assert(std[2].0.id.len() == 9);
    assert(std[3].0.id.len() == 25);
    assert(std[4].0.id.len() == 14);
    assert(std[5].0.id.len() == 19);
    assert(std[1].0.id[0] != std[4].0.id[0]);
    assert(std[0].0.default_keybinding->0.key.len() == 5);
    assert(std[1].0.default_keybinding->0.key.len() == 6);
    assert(std[2].0.default_keybinding->0.key[0] == 'w');
    assert(std[3].0.default_keybinding->0.key[0] == 'P');
    assert(std[4].0.default_keybinding->0.key[0] == 'o');
    assert(std[5].0.default_keybinding->0.key[0] == '\\');
    assert(std[2].0.default_keybinding->0.key.len() == 1);
    assert(std[3].0.default_keybinding->0.key.len() == 1);
    assert(std[4].0.default_keybinding->0.key.len() == 1);
    assert(std[5].0.default_keybinding->0.key.len() == 1);
    assert(std[0].0.id != std[1].0.id);
    assert(std[0].0.default_keybinding->0 != std[1].0.default_keybinding->0);
    assert(std[0].0.id != std[2].0.id);
    assert(std[0].0.default_keybinding->0 != std[2].0.default_keybinding->0);
    assert(std[0].0.id != std[3].0.id);
    assert(std[0].0.default_keybinding->0 != std[3].0.default_keybinding->0);
    assert(std[0].0.id != std[4].0.id);
    assert(std[0].0.default_keybinding->0 != std[4].0.default_keybinding->0);
    assert(std[0].0.id != std[5].0.id);
    assert(std[0].0.default_keybinding->0 != std[5].0.default_keybinding->0);
    assert(std[1].0.id != std[2].0.id);
    assert(std[1].0.default_keybinding->0 != std[2].0.default_keybinding->0);
    assert(std[1].0.id != std[3].0.id);
    assert(std[1].0.default_keybinding->0 != std[3].0.default_keybinding->0);
    assert(std[1].0.id != std[4].0.id);
    assert(std[1].0.default_keybinding->0 != std[4].0.default_keybinding->0);
    assert(std[1].0.id != std[5].0.id);
    assert(std[1].0.default_keybinding->0 != std[5].0.default_keybinding->0);
    assert(std[2].0.id != std[3].0.id);
    assert(std[2].0.default_keybinding->0 != std[3].0.default_keybinding->0);
    assert(std[2].0.id != std[4].0.id);
    assert(std[2].0.default_keybinding->0 != std[4].0.default_keybinding->0);
    assert(std[2].0.id != std[5].0.id);
    assert(std[2].0.default_keybinding->0 != std[5].0.default_keybinding->0);
    assert(std[3].0.id != std[4].0.id);
    assert(std[3].0.default_keybinding->0 != std[4].0.default_keybinding->0);
    assert(std[3].0.id != std[5].0.id);
    assert(std[3].0.default_keybinding->0 != std[5].0.default_keybinding->0);
    assert(std[4].0.id != std[5].0.id);
    assert(std[4].0.default_keybinding->0 != std[5].0.default_keybinding->0);
    assert forall|i: int, j: int| 0 <= i < j < 6 implies (#[trigger] std[i]).0.id != (
    #[trigger] std[j]).0.id && std[i].0.default_keybinding->0 != std[j].0.default_keybinding->0 by {
        assert(i == 0 || i == 1 || i == 2 || i == 3 || i == 4);
        assert(j == 1 || j == 2 || j == 3 || j == 4 || j == 5);
    }
}

impl CommandRegistry {
    /// A registry holding the standard commands, with their keybindings.
    pub fn new() -> (r: Self)
        ensures
            r.wf(),
            r.registered() == standard_commands(),
            forall|i: int|
                0 <= i < standard_commands().len() ==> r.bound_to(
                    (#[trigger] standard_commands()[i]).0.default_keybinding->0,
                ) == Some(standard_commands()[i].0.id),
    {
        proof {
            reveal_strlit("request.send");
            reveal_strlit("request.cancel");
            reveal_strlit("tab.close");
            reveal_strlit("workbench.command_palette");
            reveal_strlit("workspace.open");
            reveal_strlit("pane.split_vertical");
            reveal_strlit("Enter");
            reveal_strlit("Escape");
            reveal_strlit("w");
            reveal_strlit("P");
            reveal_strlit("o");
            reveal_strlit("\\");
        }
        let ghost std = standard_commands();
        let mut r = CommandRegistry { commands: Vec::new(), keymap: Vec::new() };
        assert(r.registered() =~= Seq::<(DescriptorView, bool)>::empty());
        assert(r.bindings() =~= Seq::<(BindingView, Seq<char>)>::empty());
        proof {
            lemma_standard_distinct();
            assert(std.take(0) =~= Seq::<(DescriptorView, bool)>::empty());
            assert(std.take(0).map_values(
                |e: (DescriptorView, bool)| (e.0.default_keybinding->0, e.0.id),
            ) =~= Seq::<(BindingView, Seq<char>)>::empty());
        }
        r.add_standard(
            CommandDescriptor::new("request.send", "Send Request", "Request").with_description(
                "Execute the active HTTP or protocol request",
            ).with_keybinding(KeyBinding::primary("Enter")),
            Ghost(0),
        );
        r.add_standard(
            CommandDescriptor::new("request.cancel", "Cancel Request", "Request").with_description(
                "Cancel current in-flight request execution",
            ).with_keybinding(KeyBinding::primary("Escape")),
            Ghost(1),
        );
        r.add_standard(
            CommandDescriptor::new("tab.close", "Close Tab", "View").with_description(
                "Close the active workbench tab",
            ).with_keybinding(KeyBinding::primary("w")),
            Ghost(2),
        );
        r.add_standard(
            CommandDescriptor::new(
                "workbench.command_palette",
                "Open Command Palette",
                "View",
            ).with_description("Show the command palette search modal").with_keybinding(
                KeyBinding::primary_shift("P"),
            ),
            Ghost(3),
        );
        r.add_standard(
            CommandDescriptor::new("workspace.open", "Open Workspace...", "Workspace").with_description(
                "Select and open a local PacketSmith workspace directory",
            ).with_keybinding(KeyBinding::primary("o")),
            Ghost(4),
        );
        r.add_standard(
            CommandDescriptor::new(
                "pane.split_vertical",
                "Split Editor Right",
                "View",
            ).with_description("Split current active pane vertically").with_keybinding(
                KeyBinding::primary("\\"),
            ),
            Ghost(5),
        );
        proof {
            assert(std.take(6) =~= std);
            assert forall|i: int| 0 <= i < std.len() implies r.bound_to(
                (#[trigger] std[i]).0.default_keybinding->0,
            ) == Some(std[i].0.id) by {
                assert(r.bindings()[i].0 == std[i].0.default_keybinding->0);
                let k = choose|k: int|
                    0 <= k < r.bindings().len() && #[trigger] r.bindings()[k].0
                        == std[i].0.default_keybinding->0;
                if k != i {
                    if k < i {
                        assert(r.bindings()[k].0 != r.bindings()[i].0);
                    } else {
                        assert(r.bindings()[i].0 != r.bindings()[k].0);
                    }
                }
            }
        }
        r
    }

    /// Registers the standard command at index `k`, the first `k` being there.
    fn add_standard(&mut self, descriptor: CommandDescriptor, k: Ghost<int>)
        requires
            old(self).wf(),
            0 <= k@ < 6,
            descriptor@ == standard_commands()[k@].0,
            old(self).registered() == standard_commands().take(k@),
            old(self).bindings() == standard_commands().take(k@).map_values(
                |e: (DescriptorView, bool)| (e.0.default_keybinding->0, e.0.id),
            ),
        ensures
            final(self).wf(),
            final(self).registered() == standard_commands().take(k@ + 1),
            final(self).bindings() == standard_commands().take(k@ + 1).map_values(
                |e: (DescriptorView, bool)| (e.0.default_keybinding->0, e.0.id),
            ),
    {
        let ghost std = standard_commands();
        proof {
            lemma_standard_distinct();
            assert(std.take(k@ + 1) =~= std.take(k@).push(std[k@]));
            assert forall|i: int| 0 <= i < std.take(k@).len() implies #[trigger] std.take(k@)[i].0.id
                != descriptor@.id by {
                assert(std.take(k@)[i] == std[i]);
                assert(std[i].0.id != std[k@].0.id);
            }
            assert forall|i: int| 0 <= i < self.bindings().len() implies #[trigger] self.bindings()[i].0
                != descriptor@.default_keybinding->0 by {
                assert(self.bindings()[i].0 == std[i].0.default_keybinding->0);
                assert(std[i].0.default_keybinding->0 != std[k@].0.default_keybinding->0);
            }
        }
        self.register_descriptor(descriptor);
        proof {
            assert(self.registered() =~= std.take(k@ + 1));
            assert(self.bindings() =~= std.take(k@ + 1).map_values(
                |e: (DescriptorView, bool)| (e.0.default_keybinding->0, e.0.id),
            ));
        }
    }

    /// Registers a command without an action; its keybinding, if any, is
    /// bound to it. A command with the same id is replaced.
    pub fn register_descriptor(&mut self, descriptor: CommandDescriptor)
        requires
            old(self).wf(),
        ensures
            final(self).wf(),
            final(self).registered() == upsert(old(self).registered(), (descriptor@, false)),
            final(self).action_of(descriptor@.id) is None,
            forall|id: Seq<char>|
                id != descriptor@.id ==> #[trigger] final(self).action_of(id) == old(self).action_of(id),
            final(self).bindings() == match descriptor@.default_keybinding {
                Some(b) => bind(old(self).bindings(), b, descriptor@.id),
                None => old(self).bindings(),
            },
    {
        match &descriptor.default_keybinding {
            Some(binding) => {
                self.bind_key(binding.copy(), descriptor.id.copy());
            },
            None => {},
        }
        self.add_command(descriptor, None);
    }

    /// Registers a command with the action run when it is dispatched.
    pub fn register_action(&mut self, descriptor: CommandDescriptor, action: Arc<dyn CommandAction>)
        requires
            old(self).wf(),
            action.can_execute(),
        ensures
            final(self).wf(),
            final(self).registered() == upsert(old(self).registered(), (descriptor@, true)),
            final(self).action_of(descriptor@.id) == Some(action),
            forall|id: Seq<char>|
                id != descriptor@.id ==> #[trigger] final(self).action_of(id) == old(self).action_of(id),
            final(self).bindings() == match descriptor@.default_keybinding {
                Some(b) => bind(old(self).bindings(), b, descriptor@.id),
                None => old(self).bindings(),
            },
    {
        match &descriptor.default_keybinding {
            Some(binding) => {
                self.bind_key(binding.copy(), descriptor.id.copy());
            },
            None => {},
        }
        let wrapped = wrap_action(action);
        self.add_command(descriptor, wrapped);
    }

    /// The descriptor registered under `id`.
    pub fn get_descriptor(&self, id: &CommandId) -> (r: Option<CommandDescriptor>)
        requires
            self.wf(),
        ensures
            match r {
                Some(d) => self.lookup(id.0@) matches Some(e) && d@ == e.0,
                None => self.lookup(id.0@) is None,
            },
    {
        match self.command_index(id.as_str()) {
            Some(i) => Some(self.commands[i].descriptor.copy()),
            None => None,
        }
    }

    /// Runs the command registered under `id`: unknown and disabled
    /// commands are errors, a command without action succeeds, and otherwise
    /// the action's own result is returned.
    pub fn dispatch(&self, id: &CommandId) -> (r: Result<(), CommandError>)
        requires
            self.wf(),
        ensures
            match self.lookup(id.0@) {
                None => r matches Err(CommandError::NotFound(s)) && s@ == id.0@,
                Some((d, has_action)) => if !d.enabled {
                    r matches Err(CommandError::Disabled(s)) && s@ == id.0@
                } else if !has_action {
                    r is Ok
                } else {
                    self.action_of(id.0@) matches Some(a) && a.executes_to(r)
                },
            },
    {
        match self.command_index(id.as_str()) {
            None => Err(CommandError::NotFound(id.to_string())),
            Some(i) => {
                let command = &self.commands[i];
                if !command.descriptor.enabled {
                    return Err(CommandError::Disabled(id.to_string()));
                }
                proof {
                    self.lemma_action_at(i as int);
                }
                match &command.action {
                    Some(action) => {
                        assert(action_ok(self.commands@[i as int]));
                        action.execute()
                    },
                    None => Ok(()),
                }
            },
        }
    }

    /// The command bound to a keybinding.
    pub fn command_for_keybinding(&self, binding: &KeyBinding) -> (r: Option<CommandId>)
        requires
            self.wf(),
        ensures
            match r {
                Some(c) => self.bound_to(binding@) == Some(c.0@),
                None => self.bound_to(binding@) is None,
            },
    {
        match self.binding_index(binding) {
            Some(i) => Some(self.keymap[i].1.copy()),
            None => None,
        }
    }

    /// Palette search: the commands whose title, category or id holds the
    /// query, ignoring case, sorted by title.
    pub fn search(&self, query: &str) -> (r: Vec<CommandDescriptor>)
        requires
            self.wf(),
        ensures
            dviews(r@).to_multiset() == self.registered().map_values(
                |e: (DescriptorView, bool)| e.0,
            ).filter(|d: DescriptorView| palette_match(d, lowercase(query@))).to_multiset(),
            sorted_by(dviews(r@), false),
            forall|k: int|
                0 <= k < self.registered().len() && is_ascii_text(query@) && is_ascii_text(
                    #[trigger] self.registered()[k].0.title,
                ) && contains_seq(ascii_lowered(self.registered()[k].0.title), ascii_lowered(query@))
                    ==> dviews(r@).contains(self.registered()[k].0),
    {
        let q = chars_of(to_lowercase(query).as_str());
        let ghost pred = |d: DescriptorView| palette_match(d, lowercase(query@));
        let ghost all = self.registered().map_values(|e: (DescriptorView, bool)| e.0);
        let mut found: Vec<CommandDescriptor> = Vec::new();
        let mut i: usize = 0;
        assert(all.take(0) =~= Seq::<DescriptorView>::empty());
        assert(dviews(found@) =~= Seq::<DescriptorView>::empty());
        while i < self.commands.len()
            invariant
                i <= self.commands.len(),
                all == self.registered().map_values(|e: (DescriptorView, bool)| e.0),
                all.len() == self.commands@.len(),
                q@ == lowercase(query@),
                pred == (|d: DescriptorView| palette_match(d, lowercase(query@))),
                dviews(found@) == all.take(i as int).filter(pred),
                is_ascii_text(query@) ==> q@ == ascii_lowered(query@),
                forall|k: int|
                    0 <= k < i && is_ascii_text(query@) && is_ascii_text(#[trigger] all[k].title)
                        && contains_seq(ascii_lowered(all[k].title), ascii_lowered(query@))
                        ==> dviews(found@).contains(all[k]),
            decreases self.commands.len() - i,
        {
            let d = &self.commands[i].descriptor;
            let title = chars_of(to_lowercase(d.title.as_str()).as_str());
            let category = chars_of(to_lowercase(d.category.as_str()).as_str());
            let ident = chars_of(to_lowercase(d.id.as_str()).as_str());
            let hit = contains(&title, &q) || contains(&category, &q) || contains(&ident, &q);
            proof {
                assert(all[i as int] == d@);
                assert(all.take(i + 1) =~= all.take(i as int).push(d@));
                all.take(i as int).lemma_filter_push(d@, pred);
            }
            let ghost before = dviews(found@);
            if hit {
                found.push(d.copy());
                proof {
                    assert(dviews(found@) =~= before.push(d@));
                }
            }
            proof {
                assert forall|k: int|
                    0 <= k < i + 1 && is_ascii_text(query@) && is_ascii_text(#[trigger] all[k].title)
                        && contains_seq(ascii_lowered(all[k].title), ascii_lowered(query@))
                        implies dviews(found@).contains(all[k]) by {
                    if k < i {
                        let t = choose|t: int| 0 <= t < before.len() && before[t] == all[k];
                        assert(dviews(found@)[t] == all[k]);
                    } else {
                        assert(all[k] == d@);
                        assert(dviews(found@)[dviews(found@).len() - 1] == d@);
                    }
                }
            }
            i = i + 1;
        }
        assert(all.take(i as int) =~= all);
        let r = sort_descriptors(found, false);
        proof {
            broadcast use vstd::seq_lib::group_to_multiset_ensures;

            assert forall|k: int|
                0 <= k < self.registered().len() && is_ascii_text(query@) && is_ascii_text(
                    #[trigger] self.registered()[k].0.title,
                ) && contains_seq(ascii_lowered(self.registered()[k].0.title), ascii_lowered(query@))
                    implies dviews(r@).contains(self.registered()[k].0) by {
                assert(all[k] == self.registered()[k].0);
                assert(dviews(found@).contains(all[k]));
                assert(dviews(found@).to_multiset().count(all[k]) > 0);
            }
        }
        r
    }

    /// Every registered command, sorted by category, then title.
    pub fn list_all(&self) -> (r: Vec<CommandDescriptor>)
        requires
            self.wf(),
        ensures
            dviews(r@).to_multiset() == self.registered().map_values(
                |e: (DescriptorView, bool)| e.0,
            ).to_multiset(),
            sorted_by(dviews(r@), true),
    {
        let ghost all = self.registered().map_values(|e: (DescriptorView, bool)| e.0);
        let mut items: Vec<CommandDescriptor> = Vec::new();
        let mut i: usize = 0;
        while i < self.commands.len()
            invariant
                i <= self.commands.len(),
                all == self.registered().map_values(|e: (DescriptorView, bool)| e.0),
                all.len() == self.commands@.len(),
                dviews(items@) == all.take(i as int),
            decreases self.commands.len() - i,
        {
            let ghost before = items@;
            let d = self.commands[i].descriptor.copy();
            proof {
                assert(all[i as int] == self.commands@[i as int].descriptor@);
            }
            items.push(d);
            proof {
                assert(dviews(items@) =~= dviews(before).push(d@));
                assert(all.take(i + 1) =~= all.take(i as int).push(d@));
            }
            i = i + 1;
        }
        assert(all.take(i as int) =~= all);
        sort_descriptors(items, true)
    }
}


/// A registered command is found under its id, with or without its action
/// as registered, and every other command is found as before.
pub proof fn law_registration_is_found(
    before: CommandRegistry,
    after: CommandRegistry,
    d: DescriptorView,
    has_action: bool,
    other: Seq<char>,
)
    requires
        before.wf(),
        after.wf(),
        after.registered() == upsert(before.registered(), (d, has_action)),
        other != d.id,
    ensures
        after.lookup(d.id) == Some((d, has_action)),
        after.lookup(other) == before.lookup(other),
{
    let rs = before.registered();
    let ns = after.registered();
    let x = (d, has_action);
    let p = if exists|i: int| 0 <= i < rs.len() && #[trigger] rs[i].0.id == d.id {
        choose|i: int| 0 <= i < rs.len() && #[trigger] rs[i].0.id == d.id
    } else {
        rs.len() as int
    };
    assert(ns[p] == x);
    let k = choose|k: int| 0 <= k < ns.len() && #[trigger] ns[k].0.id == d.id;
    if k != p {
        if k < p {
            assert(ns[k].0.id != ns[p].0.id);
        } else {
            assert(ns[p].0.id != ns[k].0.id);
        }
    }
    if exists|i: int| 0 <= i < rs.len() && #[trigger] rs[i].0.id == other {
        let i = choose|i: int| 0 <= i < rs.len() && #[trigger] rs[i].0.id == other;
        assert(ns[i] == rs[i]);
        let j = choose|j: int| 0 <= j < ns.len() && #[trigger] ns[j].0.id == other;
        if j != i {
            if j < i {
                assert(ns[j].0.id != ns[i].0.id);
            } else {
                assert(ns[i].0.id != ns[j].0.id);
            }
        }
    } else {
        assert forall|j: int| 0 <= j < ns.len() implies #[trigger] ns[j].0.id != other by {
            if j != p {
                assert(ns[j] == rs[j]);
            }
        }
    }
}

/// A keybinding, once bound, leads to its command.
pub proof fn law_binding_leads_to_command(
    before: CommandRegistry,
    after: CommandRegistry,
    b: BindingView,
    id: Seq<char>,
)
    requires
        before.wf(),
        after.wf(),
        after.bindings() == bind(before.bindings(), b, id),
    ensures
        after.bound_to(b) == Some(id),
{
    let bs = before.bindings();
    let ns = after.bindings();
    let p = if exists|i: int| 0 <= i < bs.len() && #[trigger] bs[i].0 == b {
        choose|i: int| 0 <= i < bs.len() && #[trigger] bs[i].0 == b
    } else {
        bs.len() as int
    };
    assert(ns[p] == (b, id));
    let k = choose|k: int| 0 <= k < ns.len() && #[trigger] ns[k].0 == b;
    if k != p {
        if k < p {
            assert(ns[k].0 != ns[p].0);
        } else {
            assert(ns[p].0 != ns[k].0);
        }
    }
}

/// Registering a descriptor replaces whatever was registered under its id:
/// the command is found as given, with no action (so dispatching it runs no
/// action: it succeeds when enabled, and is refused as disabled otherwise);
/// its keybinding leads to it; every other id keeps its command and action.
pub proof fn law_register_descriptor_replaces(
    before: CommandRegistry,
    after: CommandRegistry,
    d: DescriptorView,
    other: Seq<char>,
)
    requires
        before.wf(),
        after.wf(),
        after.registered() == upsert(before.registered(), (d, false)),
        after.action_of(d.id) is None,
        forall|id: Seq<char>| id != d.id ==> #[trigger] after.action_of(id) == before.action_of(id),
        after.bindings() == match d.default_keybinding {
            Some(b) => bind(before.bindings(), b, d.id),
            None => before.bindings(),
        },
        other != d.id,
    ensures
        after.lookup(d.id) == Some((d, false)),
        after.action_of(d.id) is None,
        after.lookup(other) == before.lookup(other),
        after.action_of(other) == before.action_of(other),
        d.default_keybinding matches Some(b) ==> after.bound_to(b) == Some(d.id),
{
    law_registration_is_found(before, after, d, false, other);
    match d.default_keybinding {
        Some(b) => {
            law_binding_leads_to_command(before, after, b, d.id);
        },
        None => {},
    }
}

/// Palette search ignores the case of titles: a command whose lowercased
/// title holds the lowercased query matches it.
pub proof fn law_palette_matches_title_in_any_case(d: DescriptorView, query: Seq<char>)
    ensures
        contains_seq(lowercase(d.title), lowercase(query)) ==> palette_match(d, lowercase(query)),
        contains_seq(lowercase(d.category), lowercase(query)) ==> palette_match(d, lowercase(query)),
        contains_seq(lowercase(d.id), lowercase(query)) ==> palette_match(d, lowercase(query)),
{
}
} // verus!
