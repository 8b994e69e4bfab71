//! Hierarchical variable resolution.
//!
//! The resolver keeps raw values separate from display-safe values, records
//! the source of every substitution, and leaves unresolved templates intact.
use vstd::prelude::*;
use std::ops::Range;
use std::sync::Arc;
use crate::domain::{ResourceId, VariableScope};
use crate::dynamic::{builtin_name, builtin_text, BuiltInDynamicVariables};
use crate::domain::random_uuid_shape;
use crate::json::{json_path_value, resolve_json_path};
use crate::template::{
    diag_views, has_open_braces, lemma_parse_in_order, lemma_parse_plain, parse_chars, parse_spec, ref_views, refs_from,
    DiagnosticView, ReferenceView, VariableDiagnostic, VariableDiagnosticKind, VariableReference,
};
use crate::text::{
    chars_of, decimal, extend_range, extend_str, is_prefix_seq, push_decimal, seq_eq, slice_range,
    starts_with, string_of, string_of_range,
};

verus! {

/// Text shown anywhere a secret value would otherwise be displayed.
pub const SECRET_MASK: &'static str = "\u{2022}\u{2022}\u{2022}\u{2022}\u{2022}\u{2022}";

const DEFAULT_MAX_DEPTH: usize = 32;

// ---------------------------------------------------------------------------
// Sources and definitions
// ---------------------------------------------------------------------------

/// A location capable of owning a variable definition.
#[derive(Debug)]
pub struct VariableSource {
    pub scope: VariableScope,
    pub resource_id: Option<ResourceId>,
    pub label: String,
}

pub ghost struct SourceView {
    pub scope: VariableScope,
    pub resource_id: Option<ResourceId>,
    pub label: Seq<char>,
}

impl View for VariableSource {
    type V = SourceView;

    open spec fn view(&self) -> SourceView {
        SourceView { scope: self.scope, resource_id: self.resource_id, label: self.label@ }
    }
}

impl VariableSource {
    pub fn new(scope: VariableScope, label: &str) -> (r: Self)
        ensures
            r@ == (SourceView { scope: scope, resource_id: None, label: label@ }),
    {
        VariableSource { scope, resource_id: None, label: label.to_owned() }
    }

    pub fn with_resource_id(self, resource_id: ResourceId) -> (r: Self)
        ensures
            r@ == (SourceView { scope: self@.scope, resource_id: Some(resource_id), label: self@.label }),
    {
        VariableSource { scope: self.scope, resource_id: Some(resource_id), label: self.label }
    }

    pub fn copy(&self) -> (r: Self)
        ensures
            r@ == self@,
    {
        VariableSource { scope: self.scope, resource_id: self.resource_id, label: self.label.clone() }
    }
}

pub open spec fn bool_text(b: bool) -> Seq<char> {
    if b {
        "true"@
    } else {
        "false"@
    }
}

fn bool_str(b: bool) -> (r: &'static str)
    ensures
        r@ == bool_text(b),
{
    if b {
        "true"
    } else {
        "false"
    }
}

/// A value available to the resolution engine.
pub struct VariableDefinition {
    pub name: String,
    pub value: String,
    pub is_secret: bool,
    pub enabled: bool,
    pub source: VariableSource,
}

pub ghost struct DefinitionView {
    pub name: Seq<char>,
    pub value: Seq<char>,
    pub is_secret: bool,
    pub enabled: bool,
    pub source: SourceView,
}

impl View for VariableDefinition {
    type V = DefinitionView;

    open spec fn view(&self) -> DefinitionView {
        DefinitionView {
            name: self.name@,
            value: self.value@,
            is_secret: self.is_secret,
            enabled: self.enabled,
            source: self.source@,
        }
    }
}

impl VariableDefinition {
    /// A public, enabled definition.
    pub fn new(name: &str, value: &str, source: VariableSource) -> (r: Self)
        ensures
            r@ == (DefinitionView {
                name: name@,
                value: value@,
                is_secret: false,
                enabled: true,
                source: source@,
            }),
    {
        VariableDefinition {
            name: name.to_owned(),
            value: value.to_owned(),
            is_secret: false,
            enabled: true,
            source,
        }
    }

    /// The same definition, marked secret.
    pub fn secret(self) -> (r: Self)
        ensures
            r@ == (DefinitionView { is_secret: true, ..self@ }),
    {
        VariableDefinition { is_secret: true, ..self }
    }

    /// A description for logs: the value is masked when secret.
    pub fn debug_string(&self) -> (r: String)
        ensures
            r@ == "VariableDefinition { name: "@ + self.name@ + ", value: "@ + (if self.is_secret {
                SECRET_MASK@
            } else {
                self.value@
            }) + ", is_secret: "@ + bool_text(self.is_secret) + ", enabled: "@ + bool_text(self.enabled)
                + ", source: "@ + self.source.label@ + " }"@,
    {
        let mut r = "VariableDefinition { name: ".to_owned();
        r.push_str(self.name.as_str());
        r.push_str(", value: ");
        if self.is_secret {
            r.push_str(SECRET_MASK);
        } else {
            r.push_str(self.value.as_str());
        }
        r.push_str(", is_secret: ");
        r.push_str(bool_str(self.is_secret));
        r.push_str(", enabled: ");
        r.push_str(bool_str(self.enabled));
        r.push_str(", source: ");
        r.push_str(self.source.label.as_str());
        r.push_str(" }");
        r
    }

    pub fn copy(&self) -> (r: Self)
        ensures
            r@ == self@,
    {
        VariableDefinition {
            name: self.name.clone(),
            value: self.value.clone(),
            is_secret: self.is_secret,
            enabled: self.enabled,
            source: self.source.copy(),
        }
    }
}

// ---------------------------------------------------------------------------
// Results
// ---------------------------------------------------------------------------

/// Where a resolved value came from.
#[derive(Debug)]
pub struct ResolutionProvenance {
    pub source: VariableSource,
    pub definition_name: String,
    pub object_path: Option<String>,
}

pub struct ResolvedVariable {
    pub name: String,
    pub value: String,
    pub display_value: String,
    pub is_secret: bool,
    pub provenance: ResolutionProvenance,
}

impl ResolvedVariable {
    /// A description for logs: the display value only, never the value.
    pub fn debug_string(&self) -> (r: String)
        ensures
            r@ == "ResolvedVariable { name: "@ + self.name@ + ", display_value: "@ + self.display_value@
                + ", is_secret: "@ + bool_text(self.is_secret) + ", source: "@
                + self.provenance.source.label@ + " }"@,
    {
        let mut r = "ResolvedVariable { name: ".to_owned();
        r.push_str(self.name.as_str());
        r.push_str(", display_value: ");
        r.push_str(self.display_value.as_str());
        r.push_str(", is_secret: ");
        r.push_str(bool_str(self.is_secret));
        r.push_str(", source: ");
        r.push_str(self.provenance.source.label.as_str());
        r.push_str(" }");
        r
    }
}

pub struct ResolutionOccurrence {
    pub reference: VariableReference,
    pub output_range: Range<usize>,
    pub resolved: Option<ResolvedVariable>,
}

pub struct ResolutionResult {
    /// Value intended for protocol execution. This may contain secrets.
    pub value: String,
    /// Safe representation intended for logs, previews, and event payloads.
    pub display_value: String,
    pub occurrences: Vec<ResolutionOccurrence>,
    pub diagnostics: Vec<VariableDiagnostic>,
}

impl ResolutionResult {
    /// Whether every reference was resolved and nothing was reported.
    pub fn is_complete(&self) -> (r: bool)
        ensures
            r == (self.diagnostics@.len() == 0),
    {
        self.diagnostics.len() == 0
    }

    /// A description for logs: the display value and the counts of
    /// occurrences and diagnostics, never the execution value.
    pub fn debug_string(&self) -> (r: String)
        ensures
            r@ == "ResolutionResult { display_value: "@ + self.display_value@ + ", occurrences: "@
                + decimal(self.occurrences@.len()) + ", diagnostics: "@ + decimal(
                self.diagnostics@.len(),
            ) + " }"@,
    {
        let mut r = "ResolutionResult { display_value: ".to_owned();
        r.push_str(self.display_value.as_str());
        r.push_str(", occurrences: ");
        push_decimal(&mut r, self.occurrences.len() as u64);
        r.push_str(", diagnostics: ");
        push_decimal(&mut r, self.diagnostics.len() as u64);
        r.push_str(" }");
        r
    }
}

#[derive(Debug)]
pub enum VariableResolveError {
    Unresolved(String),
    Cycle(Vec<String>),
    MaximumDepth(usize),
}

pub ghost enum ResolveErrorView {
    Unresolved(Seq<char>),
    Cycle(Seq<Seq<char>>),
    MaximumDepth(int),
}

pub open spec fn strs(v: Seq<String>) -> Seq<Seq<char>> {
    v.map_values(|s: String| s@)
}

impl View for VariableResolveError {
    type V = ResolveErrorView;

    open spec fn view(&self) -> ResolveErrorView {
        match self {
            VariableResolveError::Unresolved(n) => ResolveErrorView::Unresolved(n@),
            VariableResolveError::Cycle(c) => ResolveErrorView::Cycle(strs(c@)),
            VariableResolveError::MaximumDepth(d) => ResolveErrorView::MaximumDepth(*d as int),
        }
    }
}

/// `list` joined with `sep` between consecutive items.
pub open spec fn join_seq(list: Seq<Seq<char>>, sep: Seq<char>) -> Seq<char>
    decreases list.len(),
{
    if list.len() == 0 {
        Seq::empty()
    } else if list.len() == 1 {
        list[0]
    } else {
        join_seq(list.drop_last(), sep) + sep + list.last()
    }
}

/// The text of an error, as shown in diagnostics.
pub open spec fn error_message(e: ResolveErrorView) -> Seq<char> {
    match e {
        ResolveErrorView::Unresolved(n) => "Variable '"@ + n + "' is unresolved"@,
        ResolveErrorView::Cycle(chain) => "Cyclic variable reference: "@ + join_seq(chain, " -> "@),
        ResolveErrorView::MaximumDepth(d) => "Variable resolution exceeded the maximum depth of "@
            + decimal(d as nat),
    }
}

pub open spec fn error_kind(e: ResolveErrorView) -> VariableDiagnosticKind {
    match e {
        ResolveErrorView::Unresolved(_) => VariableDiagnosticKind::UnresolvedReference,
        ResolveErrorView::Cycle(_) => VariableDiagnosticKind::CyclicReference,
        ResolveErrorView::MaximumDepth(_) => VariableDiagnosticKind::MaximumDepthExceeded,
    }
}

/// The diagnostic reported for a reference that failed with `e`.
pub open spec fn error_diagnostic(r: ReferenceView, e: ResolveErrorView) -> DiagnosticView {
    DiagnosticView { kind: error_kind(e), start: r.start, end: r.end, message: error_message(e) }
}

fn join_strings(list: &Vec<String>, sep: &str) -> (r: String)
    ensures
        r@ == join_seq(strs(list@), sep@),
{
    let mut r = String::new();
    let mut i: usize = 0;
    while i < list.len()
        invariant
            i <= list.len(),
            r@ == join_seq(strs(list@).take(i as int), sep@),
        decreases list.len() - i,
    {
        let ghost before = r@;
        if i != 0 {
            r.push_str(sep);
        }
        r.push_str(list[i].as_str());
        proof {
            let t = strs(list@).take(i + 1);
            assert(t.drop_last() =~= strs(list@).take(i as int));
            if i == 0 {
                assert(join_seq(t, sep@) == t[0]);
                assert(r@ =~= t[0]);
            } else {
                assert(r@ =~= before + sep@ + t.last());
            }
        }
        i = i + 1;
    }
    assert(strs(list@).take(list.len() as int) =~= strs(list@));
    r
}

impl VariableResolveError {
    /// The text of the error.
    pub fn message(&self) -> (m: String)
        ensures
            m@ == error_message(self@),
    {
        match self {
            VariableResolveError::Unresolved(name) => {
                let mut m = "Variable '".to_owned();
                m.push_str(name.as_str());
                m.push_str("' is unresolved");
                m
            },
            VariableResolveError::Cycle(chain) => {
                let mut m = "Cyclic variable reference: ".to_owned();
                let joined = join_strings(chain, " -> ");
                m.push_str(joined.as_str());
                m
            },
            VariableResolveError::MaximumDepth(depth) => {
                let mut m = "Variable resolution exceeded the maximum depth of ".to_owned();
                push_decimal(&mut m, *depth as u64);
                m
            },
        }
    }
}

/// Result supplied by a dynamic variable provider.
pub struct GeneratedVariable {
    pub value: String,
    pub is_secret: bool,
}

impl GeneratedVariable {
    /// A description for logs: the value is masked when secret.
    pub fn debug_string(&self) -> (r: String)
        ensures
            r@ == "GeneratedVariable { value: "@ + (if self.is_secret {
                SECRET_MASK@
            } else {
                self.value@
            }) + ", is_secret: "@ + bool_text(self.is_secret) + " }"@,
    {
        let mut r = "GeneratedVariable { value: ".to_owned();
        if self.is_secret {
            r.push_str(SECRET_MASK);
        } else {
            r.push_str(self.value.as_str());
        }
        r.push_str(", is_secret: ");
        r.push_str(bool_str(self.is_secret));
        r.push_str(" }");
        r
    }

    pub fn public(value: &str) -> (r: Self)
        ensures
            r.value@ == value@,
            !r.is_secret,
    {
        GeneratedVariable { value: value.to_owned(), is_secret: false }
    }
}

/// Extension point for built-in and plugin-provided dynamic variables.
pub trait DynamicVariableProvider {
    fn generate(&self, name: &str) -> Option<GeneratedVariable>;
}

/// Label of each scope, as shown to users.
pub open spec fn scope_label_spec(scope: VariableScope) -> Seq<char> {
    match scope {
        VariableScope::Global => "Workspace"@,
        VariableScope::Environment => "Environment"@,
        VariableScope::Collection => "Collection"@,
        VariableScope::Folder => "Folder"@,
        VariableScope::Request => "Request"@,
        VariableScope::Iteration => "Iteration data"@,
        VariableScope::Ephemeral => "Temporary"@,
        VariableScope::Vault => "Vault"@,
        VariableScope::BuiltIn => "Dynamic variable"@,
    }
}

pub fn scope_label(scope: VariableScope) -> (r: &'static str)
    ensures
        r@ == scope_label_spec(scope),
{
    match scope {
        VariableScope::Global => "Workspace",
        VariableScope::Environment => "Environment",
        VariableScope::Collection => "Collection",
        VariableScope::Folder => "Folder",
        VariableScope::Request => "Request",
        VariableScope::Iteration => "Iteration data",
        VariableScope::Ephemeral => "Temporary",
        VariableScope::Vault => "Vault",
        VariableScope::BuiltIn => "Dynamic variable",
    }
}

/// Scopes in the order they are consulted: the narrowest first.
pub open spec fn precedence_scope(k: int) -> VariableScope {
    if k == 0 {
        VariableScope::Ephemeral
    } else if k == 1 {
        VariableScope::Iteration
    } else if k == 2 {
        VariableScope::Request
    } else if k == 3 {
        VariableScope::Folder
    } else if k == 4 {
        VariableScope::Collection
    } else if k == 5 {
        VariableScope::Environment
    } else {
        VariableScope::Global
    }
}

fn precedence_at(k: usize) -> (s: VariableScope)
    requires
        k < 7,
    ensures
        s == precedence_scope(k as int),
{
    if k == 0 {
        VariableScope::Ephemeral
    } else if k == 1 {
        VariableScope::Iteration
    } else if k == 2 {
        VariableScope::Request
    } else if k == 3 {
        VariableScope::Folder
    } else if k == 4 {
        VariableScope::Collection
    } else if k == 5 {
        VariableScope::Environment
    } else {
        VariableScope::Global
    }
}

pub open spec fn opt_str(o: Option<String>) -> Option<Seq<char>> {
    match o {
        Some(s) => Some(s@),
        None => None,
    }
}

/// The first index of `name` in `stack`.
pub open spec fn stack_index(stack: Seq<Seq<char>>, name: Seq<char>) -> int
    decreases stack.len(),
{
    if stack.len() == 0 || stack[0] == name {
        0
    } else {
        1 + stack_index(stack.drop_first(), name)
    }
}

pub open spec fn any_secret(occs: Seq<ResolutionOccurrence>) -> bool {
    exists|k: int| 0 <= k < occs.len() && ((#[trigger] occs[k]).resolved matches Some(v) && v.is_secret)
}

/// The shape of a value produced by a dynamic variable provider.
pub open spec fn dynamic_shape(name: Seq<char>, r: ResolvedVariable) -> bool {
    &&& name.len() > 0 && name[0] == '$'
    &&& r.name@ == name
    &&& r.display_value@ == (if r.is_secret { SECRET_MASK@ } else { r.value@ })
    &&& r.provenance.source@ == (SourceView {
        scope: VariableScope::BuiltIn,
        resource_id: None,
        label: "Dynamic variable"@,
    })
    &&& r.provenance.definition_name@ == name
    &&& r.provenance.object_path is None
}

// ---------------------------------------------------------------------------
// Output assembly
// ---------------------------------------------------------------------------

/// Where the text before reference `k` starts.
pub open spec fn cursor_before(refs: Seq<ReferenceView>, k: int) -> int {
    if k == 0 {
        0
    } else {
        refs[k - 1].end
    }
}

/// Literal text copied before reference `k`: an escaped reference drops its backslash.
pub open spec fn text_before(t: Seq<char>, refs: Seq<ReferenceView>, k: int) -> Seq<char> {
    let r = refs[k];
    if r.escaped {
        t.subrange(cursor_before(refs, k), r.start - 1)
    } else {
        t.subrange(cursor_before(refs, k), r.start)
    }
}

/// Output of occurrence `k`: the resolved value, or the reference text unchanged.
pub open spec fn output_of(t: Seq<char>, r: ReferenceView, o: ResolutionOccurrence) -> Seq<char> {
    match o.resolved {
        Some(v) => v.value@,
        None => t.subrange(r.start, r.end),
    }
}

pub open spec fn display_of(t: Seq<char>, r: ReferenceView, o: ResolutionOccurrence) -> Seq<char> {
    match o.resolved {
        Some(v) => v.display_value@,
        None => t.subrange(r.start, r.end),
    }
}

/// The execution value assembled up to the end of the last reference.
pub open spec fn out_value(t: Seq<char>, refs: Seq<ReferenceView>, occs: Seq<ResolutionOccurrence>) -> Seq<char>
    decreases refs.len(),
{
    if refs.len() == 0 || occs.len() != refs.len() {
        Seq::empty()
    } else {
        let k = refs.len() - 1;
        out_value(t, refs.drop_last(), occs.drop_last()) + text_before(t, refs, k) + output_of(
            t,
            refs[k],
            occs[k],
        )
    }
}

/// The display value assembled up to the end of the last reference.
pub open spec fn out_display(t: Seq<char>, refs: Seq<ReferenceView>, occs: Seq<ResolutionOccurrence>) -> Seq<char>
    decreases refs.len(),
{
    if refs.len() == 0 || occs.len() != refs.len() {
        Seq::empty()
    } else {
        let k = refs.len() - 1;
        out_display(t, refs.drop_last(), occs.drop_last()) + text_before(t, refs, k) + display_of(
            t,
            refs[k],
            occs[k],
        )
    }
}

/// Each occurrence's output range is where its output stands in the value.
pub open spec fn ranges_ok(t: Seq<char>, refs: Seq<ReferenceView>, occs: Seq<ResolutionOccurrence>) -> bool
    decreases refs.len(),
{
    if refs.len() == 0 || occs.len() != refs.len() {
        true
    } else {
        let k = refs.len() - 1;
        let start = out_value(t, refs.drop_last(), occs.drop_last()).len() + text_before(t, refs, k).len();
        &&& occs[k].output_range.start == start
        &&& occs[k].output_range.end == start + output_of(t, refs[k], occs[k]).len()
        &&& ranges_ok(t, refs.drop_last(), occs.drop_last())
    }
}

/// Where the literal tail of the template starts.
pub open spec fn tail_start(refs: Seq<ReferenceView>) -> int {
    if refs.len() == 0 {
        0
    } else {
        refs.last().end
    }
}

// ---------------------------------------------------------------------------
// The resolver
// ---------------------------------------------------------------------------

spec fn key_at(entries: Seq<VariableDefinition>, i: int, scope: VariableScope, name: Seq<char>) -> bool {
    0 <= i < entries.len() && entries[i].source.scope == scope && entries[i].name@ == name
}

spec fn lookup_in(entries: Seq<VariableDefinition>, scope: VariableScope, name: Seq<char>) -> Option<DefinitionView> {
    if exists|i: int| key_at(entries, i, scope, name) {
        Some(entries[choose|i: int| key_at(entries, i, scope, name)]@)
    } else {
        None
    }
}

/// Hierarchical variable resolver. Narrower scopes always win.
///
/// Providers registered by the user are consulted first, the most recently
/// registered first (they are kept in registration order and walked from the
/// back); the built-in dynamic variables come last.
pub struct VariableResolver {
    entries: Vec<VariableDefinition>,
    dynamic_providers: Vec<Arc<dyn DynamicVariableProvider>>,
    max_depth: usize,
}

impl VariableResolver {
    /// Well-formedness: a positive depth limit, and at most one definition
    /// per name and scope.
    pub closed spec fn wf(self) -> bool {
        &&& self.max_depth >= 1
        &&& forall|i: int, j: int|
            0 <= i < j < self.entries.len() ==> !(self.entries[i].source.scope
                == self.entries[j].source.scope && #[trigger] self.entries[i].name@
                == #[trigger] self.entries[j].name@)
    }

    #[verifier::inline]
    spec fn has_key(self, i: int, scope: VariableScope, name: Seq<char>) -> bool {
        key_at(self.entries@, i, scope, name)
    }

    /// The definition held for `name` in `scope`, enabled or not.
    pub closed spec fn lookup(self, scope: VariableScope, name: Seq<char>) -> Option<DefinitionView> {
        lookup_in(self.entries@, scope, name)
    }

    /// The recursion limit of nested resolution.
    pub closed spec fn max_depth_spec(self) -> int {
        self.max_depth as int
    }

    /// Number of registered dynamic variable providers.
    pub closed spec fn provider_count(self) -> int {
        self.dynamic_providers.len() as int
    }

    /// The enabled definition held for `name` in `scope`.
    pub open spec fn active(self, scope: VariableScope, name: Seq<char>) -> Option<DefinitionView> {
        match self.lookup(scope, name) {
            Some(d) => if d.enabled {
                Some(d)
            } else {
                None
            },
            None => None,
        }
    }

    /// The enabled definition of `name` in the narrowest scope that has one,
    /// trying the scopes of precedence from `k` on.
    pub open spec fn first_active_from(self, name: Seq<char>, k: int) -> Option<DefinitionView>
        decreases 7 - k,
    {
        if k < 0 || k >= 7 {
            None
        } else {
            match self.active(precedence_scope(k), name) {
                Some(d) => Some(d),
                None => self.first_active_from(name, k + 1),
            }
        }
    }

    pub open spec fn first_active(self, name: Seq<char>) -> Option<DefinitionView> {
        self.first_active_from(name, 0)
    }

    /// A definition for the part of `name` before a dot at index `p` or
    /// lower, trying the rightmost dot first; with the rest of the name as
    /// an object path.
    pub open spec fn dotted_lookup(self, name: Seq<char>, p: int) -> Option<(DefinitionView, Seq<char>)>
        decreases p + 1,
    {
        if p < 0 || p >= name.len() {
            None
        } else if name[p] == '.' && self.first_active(name.subrange(0, p)) is Some {
            Some((self.first_active(name.subrange(0, p))->0, name.subrange(p + 1, name.len() as int)))
        } else {
            self.dotted_lookup(name, p - 1)
        }
    }

    /// The definition a name refers to, with its object path if any.
    pub open spec fn find_definition_spec(self, name: Seq<char>) -> Option<(DefinitionView, Option<Seq<char>>)> {
        if is_prefix_seq("vault:"@, name) {
            match self.active(VariableScope::Vault, name.subrange(6, name.len() as int)) {
                Some(d) => Some((d, None)),
                None => None,
            }
        } else {
            match self.first_active(name) {
                Some(d) => Some((d, None)),
                None => match self.dotted_lookup(name, name.len() - 1) {
                    Some((d, p)) => Some((d, Some(p))),
                    None => None,
                },
            }
        }
    }

    /// What a dynamic variable may give for `name`: a registered provider is
    /// code of the library's user and may answer any name starting with `$`;
    /// without one, only a built-in variable answers, with a public value of
    /// the shape `builtin_text` gives for some random bits, bytes and time.
    pub open spec fn dynamic_allowed(self, name: Seq<char>, r: ResolvedVariable) -> bool {
        ||| self.provider_count() > 0
        ||| builtin_name(name) && !r.is_secret && exists|bits: u128, bytes: Seq<u8>, secs: i64, iso: Seq<char>|
            random_uuid_shape(bits) && bytes.len() == 32 && #[trigger] builtin_text(name, bits, bytes, secs, iso)
                == Some(r.value@)
    }

    /// How a name resolves at `depth` with the names in `stack` being
    /// resolved: the only freedom is in what a dynamic variable gives for a
    /// name starting with `$` (`dynamic_allowed`); a name no dynamic variable
    /// answers resolves through the definitions.
    pub open spec fn name_ok(
        self,
        name: Seq<char>,
        stack: Seq<Seq<char>>,
        depth: int,
        out: Result<ResolvedVariable, VariableResolveError>,
    ) -> bool
        decreases self.max_depth_spec() - depth, 0int, 0int,
    {
        if depth >= self.max_depth_spec() || depth < 0 {
            out matches Err(e) && e@ == ResolveErrorView::MaximumDepth(self.max_depth_spec())
        } else if stack.contains(name) {
            out matches Err(e) && e@ == ResolveErrorView::Cycle(
                stack.subrange(stack_index(stack, name), stack.len() as int).push(name),
            )
        } else if out matches Ok(r) && dynamic_shape(name, r) && self.dynamic_allowed(name, r) {
            true
        } else {
            match self.find_definition_spec(name) {
                None => out matches Err(e) && e@ == ResolveErrorView::Unresolved(name),
                Some((d, path)) => if d.source.scope == VariableScope::Vault {
                    &&& out matches Ok(r)
                    &&& r.name@ == name
                    &&& r.value@ == d.value
                    &&& r.display_value@ == SECRET_MASK@
                    &&& r.is_secret
                    &&& r.provenance.source@ == d.source
                    &&& r.provenance.definition_name@ == d.name
                    &&& r.provenance.object_path is None
                } else {
                    exists|nested: ResolutionResult|
                        self.template_ok(d.value, stack.push(name), depth + 1, nested)
                            && #[trigger] self.nested_outcome(name, d, path, nested, out)
                },
            }
        }
    }

    /// How the resolution of a definition's value decides the outcome.
    pub open spec fn nested_outcome(
        self,
        name: Seq<char>,
        d: DefinitionView,
        path: Option<Seq<char>>,
        nested: ResolutionResult,
        out: Result<ResolvedVariable, VariableResolveError>,
    ) -> bool {
        if nested.diagnostics@.len() > 0 {
            out matches Err(e) && e@ == match nested.diagnostics@[0].kind {
                VariableDiagnosticKind::CyclicReference => ResolveErrorView::Cycle(seq![name]),
                VariableDiagnosticKind::MaximumDepthExceeded => ResolveErrorView::MaximumDepth(
                    self.max_depth_spec(),
                ),
                _ => ResolveErrorView::Unresolved(name),
            }
        } else {
            let value = match path {
                Some(p) => json_path_value(nested.value@, p),
                None => Some(nested.value@),
            };
            match value {
                None => out matches Err(e) && e@ == ResolveErrorView::Unresolved(name),
                Some(v) => {
                    let secret = d.is_secret || any_secret(nested.occurrences@);
                    &&& out matches Ok(r)
                    &&& r.name@ == name
                    &&& r.value@ == v
                    &&& r.display_value@ == (if secret { SECRET_MASK@ } else { v })
                    &&& r.is_secret == secret
                    &&& r.provenance.source@ == d.source
                    &&& r.provenance.definition_name@ == d.name
                    &&& opt_str(r.provenance.object_path) == path
                },
            }
        }
    }

    /// The occurrences answer the references one by one; `fails` are the
    /// diagnostics of the references that failed, in order.
    pub open spec fn occs_ok(
        self,
        refs: Seq<ReferenceView>,
        occs: Seq<ResolutionOccurrence>,
        fails: Seq<DiagnosticView>,
        stack: Seq<Seq<char>>,
        depth: int,
    ) -> bool
        decreases self.max_depth_spec() - depth, 1int, refs.len(),
    {
        if refs.len() == 0 {
            occs.len() == 0 && fails.len() == 0
        } else if occs.len() != refs.len() {
            false
        } else {
            let k = refs.len() - 1;
            let r = refs[k];
            let o = occs[k];
            &&& o.reference@ == r
            &&& if r.escaped || !r.valid {
                o.resolved is None && self.occs_ok(
                    refs.drop_last(),
                    occs.drop_last(),
                    fails,
                    stack,
                    depth,
                )
            } else {
                match o.resolved {
                    Some(v) => self.name_ok(r.name, stack, depth, Ok(v)) && self.occs_ok(
                        refs.drop_last(),
                        occs.drop_last(),
                        fails,
                        stack,
                        depth,
                    ),
                    None => {
                        &&& fails.len() > 0
                        &&& exists|e: VariableResolveError|
                            self.name_ok(r.name, stack, depth, Err(e)) && fails.last()
                                == #[trigger] error_diagnostic(r, e@)
                        &&& self.occs_ok(
                            refs.drop_last(),
                            occs.drop_last(),
                            fails.drop_last(),
                            stack,
                            depth,
                        )
                    },
                }
            }
        }
    }

    /// What resolving template `t` gives: parse diagnostics, then one
    /// diagnostic per failed reference; literal text copied, escaped
    /// references copied without their backslash, resolved references
    /// replaced, failed ones left as written.
    pub open spec fn template_ok(
        self,
        t: Seq<char>,
        stack: Seq<Seq<char>>,
        depth: int,
        res: ResolutionResult,
    ) -> bool
        decreases self.max_depth_spec() - depth, 2int, 0int,
    {
        let p = parse_spec(t);
        let refs = p.0;
        let occs = res.occurrences@;
        let ds = diag_views(res.diagnostics@);
        &&& occs.len() == refs.len()
        &&& ds.len() >= p.1.len()
        &&& ds.subrange(0, p.1.len() as int) == p.1
        &&& self.occs_ok(refs, occs, ds.subrange(p.1.len() as int, ds.len() as int), stack, depth)
        &&& res.value@ == out_value(t, refs, occs) + t.subrange(tail_start(refs), t.len() as int)
        &&& res.display_value@ == out_display(t, refs, occs) + t.subrange(
            tail_start(refs),
            t.len() as int,
        )
        &&& ranges_ok(t, refs, occs)
    }
}


// ---------------------------------------------------------------------------
// Store operations
// ---------------------------------------------------------------------------

impl VariableResolver {
    proof fn lemma_lookup_at(self, i: int, scope: VariableScope, name: Seq<char>)
        requires
            self.wf(),
            self.has_key(i, scope, name),
        ensures
            self.lookup(scope, name) == Some(self.entries[i]@),
    {
        let k = choose|k: int| self.has_key(k, scope, name);
        assert(self.has_key(k, scope, name));
        if k < i {
            assert(!(self.entries[k].source.scope == self.entries[i].source.scope
                && self.entries[k].name@ == self.entries[i].name@));
        }
        if i < k {
            assert(!(self.entries[i].source.scope == self.entries[k].source.scope
                && self.entries[i].name@ == self.entries[k].name@));
        }
    }

    /// An empty resolver: no definitions, the built-in dynamic variables,
    /// and a nesting limit of 32.
    pub fn new() -> (r: Self)
        ensures
            r.wf(),
            forall|scope: VariableScope, name: Seq<char>| r.lookup(scope, name) is None,
            r.max_depth_spec() == 32,
            r.provider_count() == 0,
    {
        VariableResolver {
            entries: Vec::new(),
            dynamic_providers: Vec::new(),
            max_depth: DEFAULT_MAX_DEPTH,
        }
    }

    fn index_of(&self, scope: VariableScope, name: &[char]) -> (r: Option<usize>)
        ensures
            match r {
                Some(i) => self.has_key(i as int, scope, name@),
                None => forall|i: int| !self.has_key(i, scope, name@),
            },
    {
        let mut i: usize = 0;
        while i < self.entries.len()
            invariant
                i <= self.entries.len(),
                forall|j: int| 0 <= j < i ==> !self.has_key(j, scope, name@),
            decreases self.entries.len() - i,
        {
            if self.entries[i].source.scope == scope {
                let n = chars_of(self.entries[i].name.as_str());
                if seq_eq(&n, name) {
                    return Some(i);
                }
            }
            i = i + 1;
        }
        None
    }

    /// Adds or replaces the definition of `definition.name` in `scope`; the
    /// definition's source takes that scope.
    pub fn insert(&mut self, scope: VariableScope, definition: VariableDefinition)
        requires
            old(self).wf(),
        ensures
            final(self).wf(),
            final(self).max_depth_spec() == old(self).max_depth_spec(),
            final(self).provider_count() == old(self).provider_count(),
            forall|s: VariableScope, n: Seq<char>|
                #![trigger final(self).lookup(s, n)]
                final(self).lookup(s, n) == if s == scope && n == definition.name@ {
                    Some(
                        DefinitionView {
                            source: SourceView { scope: scope, ..definition@.source },
                            ..definition@
                        },
                    )
                } else {
                    old(self).lookup(s, n)
                },
    {
        let mut definition = definition;
        definition.source.scope = scope;
        let name = chars_of(definition.name.as_str());
        let ghost d = definition;
        let ghost before = *self;
        match self.index_of(scope, &name) {
            Some(i) => {
                self.entries.set(i, definition);
                proof {
                    assert forall|a: int, b: int|
                        0 <= a < b < self.entries.len() implies !(self.entries[a].source.scope
                        == self.entries[b].source.scope && #[trigger] self.entries[a].name@
                        == #[trigger] self.entries[b].name@) by {
                        if a == i {
                            assert(before.has_key(i as int, scope, name@));
                        } else if b == i {
                            assert(before.has_key(i as int, scope, name@));
                        }
                    }
                    assert forall|sc: VariableScope, n: Seq<char>|
                        #![trigger self.lookup(sc, n)]
                        self.lookup(sc, n) == if sc == scope && n == d.name@ {
                            Some(d@)
                        } else {
                            before.lookup(sc, n)
                        } by {
                        if sc == scope && n == d.name@ {
                            assert(self.has_key(i as int, sc, n));
                            self.lemma_lookup_at(i as int, sc, n);
                        } else {
                            if exists|k: int| before.has_key(k, sc, n) {
                                let k = choose|k: int| before.has_key(k, sc, n);
                                assert(k != i);
                                assert(self.has_key(k, sc, n));
                                before.lemma_lookup_at(k, sc, n);
                                self.lemma_lookup_at(k, sc, n);
                            } else {
                                assert forall|k: int| !self.has_key(k, sc, n) by {
                                    if self.has_key(k, sc, n) {
                                        if k != i {
                                            assert(before.has_key(k, sc, n));
                                        }
                                    }
                                }
                            }
                        }
                    }
                }
            },
            None => {
                self.entries.push(definition);
                proof {
                    let last = self.entries.len() - 1;
                    assert forall|a: int, b: int|
                        0 <= a < b < self.entries.len() implies !(self.entries[a].source.scope
                        == self.entries[b].source.scope && #[trigger] self.entries[a].name@
                        == #[trigger] self.entries[b].name@) by {
                        if b == last {
                            assert(!before.has_key(a, scope, name@));
                        }
                    }
                    assert forall|sc: VariableScope, n: Seq<char>|
                        #![trigger self.lookup(sc, n)]
                        self.lookup(sc, n) == if sc == scope && n == d.name@ {
                            Some(d@)
                        } else {
                            before.lookup(sc, n)
                        } by {
                        if sc == scope && n == d.name@ {
                            assert(self.has_key(last, sc, n));
                            self.lemma_lookup_at(last, sc, n);
                        } else {
                            if exists|k: int| before.has_key(k, sc, n) {
                                let k = choose|k: int| before.has_key(k, sc, n);
                                assert(self.has_key(k, sc, n));
                                before.lemma_lookup_at(k, sc, n);
                                self.lemma_lookup_at(k, sc, n);
                            } else {
                                assert forall|k: int| !self.has_key(k, sc, n) by {
                                    if self.has_key(k, sc, n) && k != last {
                                        assert(before.has_key(k, sc, n));
                                    }
                                }
                            }
                        }
                    }
                }
            },
        }
    }

    /// Removes entry `i`: its key goes, every other key keeps its definition.
    fn remove_at(&mut self, i: usize)
        requires
            old(self).wf(),
            i < old(self).entries.len(),
        ensures
            final(self).wf(),
            final(self).max_depth_spec() == old(self).max_depth_spec(),
            final(self).provider_count() == old(self).provider_count(),
            final(self).entries.len() == old(self).entries.len() - 1,
            forall|s: VariableScope, n: Seq<char>|
                #![trigger final(self).lookup(s, n)]
                final(self).lookup(s, n) == if s == old(self).entries[i as int].source.scope && n
                    == old(self).entries[i as int].name@ {
                    None
                } else {
                    old(self).lookup(s, n)
                },
    {
        let ghost before = *self;
        let ghost gone = before.entries@[i as int];
        self.entries.remove(i);
        proof {
            assert forall|a: int, b: int|
                0 <= a < b < self.entries.len() implies !(self.entries[a].source.scope
                == self.entries[b].source.scope && #[trigger] self.entries[a].name@
                == #[trigger] self.entries[b].name@) by {
                let a0 = if a < i { a } else { a + 1 };
                let b0 = if b < i { b } else { b + 1 };
                assert(self.entries[a] == before.entries[a0]);
                assert(self.entries[b] == before.entries[b0]);
            }
            assert forall|sc: VariableScope, nm: Seq<char>|
                #![trigger self.lookup(sc, nm)]
                self.lookup(sc, nm) == if sc == gone.source.scope && nm == gone.name@ {
                    None
                } else {
                    before.lookup(sc, nm)
                } by {
                if exists|k: int| self.has_key(k, sc, nm) {
                    let k = choose|k: int| self.has_key(k, sc, nm);
                    let k0 = if k < i { k } else { k + 1 };
                    assert(self.entries[k] == before.entries[k0]);
                    assert(before.has_key(k0, sc, nm));
                    if sc == gone.source.scope && nm == gone.name@ {
                        assert(before.has_key(i as int, sc, nm));
                        assert(k0 != i);
                    }
                    self.lemma_lookup_at(k, sc, nm);
                    before.lemma_lookup_at(k0, sc, nm);
                } else if !(sc == gone.source.scope && nm == gone.name@) {
                    if exists|m: int| before.has_key(m, sc, nm) {
                        let m = choose|m: int| before.has_key(m, sc, nm);
                        assert(m != i);
                        let k = if m < i { m } else { m - 1 };
                        assert(self.entries[k] == before.entries[m]);
                        assert(self.has_key(k, sc, nm));
                    }
                }
            }
        }
    }

    fn index_in_scope(&self, scope: VariableScope) -> (r: Option<usize>)
        ensures
            match r {
                Some(i) => i < self.entries.len() && self.entries[i as int].source.scope == scope,
                None => forall|i: int|
                    0 <= i < self.entries.len() ==> #[trigger] self.entries[i].source.scope != scope,
            },
    {
        let mut i: usize = 0;
        while i < self.entries.len()
            invariant
                i <= self.entries.len(),
                forall|j: int| 0 <= j < i ==> #[trigger] self.entries[j].source.scope != scope,
            decreases self.entries.len() - i,
        {
            if self.entries[i].source.scope == scope {
                return Some(i);
            }
            i = i + 1;
        }
        None
    }

    /// Clears one scope without disturbing the others or the providers.
    pub fn clear_scope(&mut self, scope: VariableScope)
        requires
            old(self).wf(),
        ensures
            final(self).wf(),
            final(self).max_depth_spec() == old(self).max_depth_spec(),
            final(self).provider_count() == old(self).provider_count(),
            forall|s: VariableScope, n: Seq<char>|
                #![trigger final(self).lookup(s, n)]
                final(self).lookup(s, n) == if s == scope {
                    None
                } else {
                    old(self).lookup(s, n)
                },
    {
        let ghost before = *self;
        loop
            invariant
                self.wf(),
                before == *old(self),
                self.max_depth_spec() == before.max_depth_spec(),
                self.provider_count() == before.provider_count(),
                forall|s: VariableScope, n: Seq<char>|
                    #![trigger self.lookup(s, n)]
                    s != scope ==> self.lookup(s, n) == before.lookup(s, n),
            decreases self.entries.len(),
        {
            match self.index_in_scope(scope) {
                Some(i) => {
                    self.remove_at(i);
                },
                None => {
                    proof {
                        assert forall|n: Seq<char>| #[trigger] self.lookup(scope, n) is None by {
                            if exists|k: int| self.has_key(k, scope, n) {
                                let k = choose|k: int| self.has_key(k, scope, n);
                                assert(self.entries[k].source.scope == scope);
                            }
                        }
                    }
                    return ;
                },
            }
        }
    }

    /// Removes the definition of `name` in `scope`, returning it.
    pub fn remove(&mut self, scope: VariableScope, name: &str) -> (r: Option<VariableDefinition>)
        requires
            old(self).wf(),
        ensures
            final(self).wf(),
            final(self).max_depth_spec() == old(self).max_depth_spec(),
            final(self).provider_count() == old(self).provider_count(),
            match r {
                Some(d) => old(self).lookup(scope, name@) == Some(d@),
                None => old(self).lookup(scope, name@) is None,
            },
            forall|s: VariableScope, n: Seq<char>|
                #![trigger final(self).lookup(s, n)]
                final(self).lookup(s, n) == if s == scope && n == name@ {
                    None
                } else {
                    old(self).lookup(s, n)
                },
    {
        let n = chars_of(name);
        match self.index_of(scope, &n) {
            Some(i) => {
                proof {
                    self.lemma_lookup_at(i as int, scope, name@);
                }
                let d = self.entries[i].copy();
                self.remove_at(i);
                Some(d)
            },
            None => {
                assert(!(exists|k: int| self.has_key(k, scope, name@)));
                None
            },
        }
    }
}


/// The value last given to `name` in a list of name/value pairs.
pub open spec fn assigned(vars: Seq<(String, String)>, name: Seq<char>) -> Option<Seq<char>>
    decreases vars.len(),
{
    if vars.len() == 0 {
        None
    } else if vars.last().0@ == name {
        Some(vars.last().1@)
    } else {
        assigned(vars.drop_last(), name)
    }
}

/// The definition last given for `name` in a list of definitions.
pub open spec fn assigned_definition(defs: Seq<VariableDefinition>, name: Seq<char>) -> Option<DefinitionView>
    decreases defs.len(),
{
    if defs.len() == 0 {
        None
    } else if defs.last().name@ == name {
        Some(defs.last()@)
    } else {
        assigned_definition(defs.drop_last(), name)
    }
}

impl VariableResolver {
    /// Replaces the definitions of a scope by `definitions`, in order; a
    /// later definition of a name replaces an earlier one.
    pub fn replace_scope(&mut self, scope: VariableScope, definitions: Vec<VariableDefinition>)
        requires
            old(self).wf(),
        ensures
            final(self).wf(),
            final(self).max_depth_spec() == old(self).max_depth_spec(),
            final(self).provider_count() == old(self).provider_count(),
            forall|s: VariableScope, n: Seq<char>|
                #![trigger final(self).lookup(s, n)]
                final(self).lookup(s, n) == if s == scope {
                    match assigned_definition(definitions@, n) {
                        Some(d) => Some(DefinitionView { source: SourceView { scope: scope, ..d.source }, ..d }),
                        None => None,
                    }
                } else {
                    old(self).lookup(s, n)
                },
    {
        self.clear_scope(scope);
        let mut taken = VariableResolver::new();
        std::mem::swap(&mut taken, self);
        let r = taken.with_definitions(scope, definitions);
        *self = r;
    }
}

impl VariableResolver {
    /// Adds definitions to a scope in order; a later definition of a name
    /// replaces an earlier one.
    pub fn with_definitions(self, scope: VariableScope, definitions: Vec<VariableDefinition>) -> (r: Self)
        requires
            self.wf(),
        ensures
            r.wf(),
            r.max_depth_spec() == self.max_depth_spec(),
            r.provider_count() == self.provider_count(),
            forall|s: VariableScope, n: Seq<char>|
                #![trigger r.lookup(s, n)]
                r.lookup(s, n) == if s == scope && assigned_definition(definitions@, n) is Some {
                    Some(
                        DefinitionView {
                            source: SourceView {
                                scope: scope,
                                ..assigned_definition(definitions@, n)->0.source
                            },
                            ..assigned_definition(definitions@, n)->0
                        },
                    )
                } else {
                    self.lookup(s, n)
                },
    {
        let mut r = self;
        let mut definitions = definitions;
        let ghost defs = definitions@;
        assert(defs.len() == definitions.len());
        let mut rest: Vec<VariableDefinition> = Vec::new();
        // consume in order: reverse into `rest`, then pop from it
        while definitions.len() > 0
            invariant
                defs == definitions@ + rest@.reverse(),
                defs.len() <= usize::MAX,
            decreases definitions.len(),
        {
            let d = definitions.pop().unwrap();
            let ghost rb = rest@;
            rest.push(d);
            proof {
                assert(rest@.reverse() =~= seq![d] + rb.reverse());
                assert(defs =~= definitions@ + rest@.reverse());
            }
        }
        assert(rest@.reverse() =~= defs);
        let mut done: usize = 0;
        while rest.len() > 0
            invariant
                r.wf(),
                r.max_depth_spec() == self.max_depth_spec(),
                r.provider_count() == self.provider_count(),
                defs == rest@.reverse().take(0) + defs,
                done + rest.len() == defs.len(),
                defs.len() <= usize::MAX,
                defs.skip(done as int) == rest@.reverse(),
                forall|s: VariableScope, n: Seq<char>|
                    #![trigger r.lookup(s, n)]
                    r.lookup(s, n) == if s == scope && assigned_definition(defs.take(done as int), n) is Some {
                        Some(
                            DefinitionView {
                                source: SourceView {
                                    scope: scope,
                                    ..assigned_definition(defs.take(done as int), n)->0.source
                                },
                                ..assigned_definition(defs.take(done as int), n)->0
                            },
                        )
                    } else {
                        self.lookup(s, n)
                    },
            decreases rest.len(),
        {
            let ghost rb = rest@;
            let d = rest.pop().unwrap();
            proof {
                assert(rb.reverse()[0] == d);
                assert(defs[done as int] == d);
                assert(rest@.reverse() =~= rb.reverse().drop_first());
                assert(defs.take(done + 1).drop_last() =~= defs.take(done as int));
                assert(defs.skip(done + 1) =~= defs.skip(done as int).drop_first());
            }
            r.insert(scope, d);
            done = done + 1;
        }
        assert(defs.take(done as int) =~= defs);
        r
    }

    /// Adds public name/value definitions to a scope, labelled after it.
    pub fn with_values(self, scope: VariableScope, variables: Vec<(String, String)>) -> (r: Self)
        requires
            self.wf(),
        ensures
            r.wf(),
            r.max_depth_spec() == self.max_depth_spec(),
            r.provider_count() == self.provider_count(),
            forall|s: VariableScope, n: Seq<char>|
                #![trigger r.lookup(s, n)]
                r.lookup(s, n) == if s == scope && assigned(variables@, n) is Some {
                    Some(
                        DefinitionView {
                            name: n,
                            value: assigned(variables@, n)->0,
                            is_secret: false,
                            enabled: true,
                            source: SourceView {
                                scope: scope,
                                resource_id: None,
                                label: scope_label_spec(scope),
                            },
                        },
                    )
                } else {
                    self.lookup(s, n)
                },
    {
        let defs = definitions_of(&variables, scope, false);
        proof {
            assert forall|n: Seq<char>| #[trigger] assigned_definition(defs@, n) == match assigned(variables@, n) {
                Some(v) => Some(DefinitionView {
                    name: n,
                    value: v,
                    is_secret: false,
                    enabled: true,
                    source: SourceView { scope: scope, resource_id: None, label: scope_label_spec(scope) },
                }),
                None => None,
            } by {
                lemma_assigned_definitions(variables@, defs@, scope, false, n);
            }
        }
        self.with_definitions(scope, defs)
    }

    pub fn with_globals(self, variables: Vec<(String, String)>) -> (r: Self)
        requires
            self.wf(),
        ensures
            r.wf(),
            r.max_depth_spec() == self.max_depth_spec(),
            r.provider_count() == self.provider_count(),
            forall|s: VariableScope, n: Seq<char>|
                #![trigger r.lookup(s, n)]
                r.lookup(s, n) == if s == VariableScope::Global && assigned(variables@, n) is Some {
                    Some(
                        DefinitionView {
                            name: n,
                            value: assigned(variables@, n)->0,
                            is_secret: false,
                            enabled: true,
                            source: SourceView {
                                scope: s,
                                resource_id: None,
                                label: scope_label_spec(s),
                            },
                        },
                    )
                } else {
                    self.lookup(s, n)
                },
    {
        self.with_values(VariableScope::Global, variables)
    }

    pub fn with_environment(self, variables: Vec<(String, String)>) -> (r: Self)
        requires
            self.wf(),
        ensures
            r.wf(),
            r.max_depth_spec() == self.max_depth_spec(),
            r.provider_count() == self.provider_count(),
            forall|s: VariableScope, n: Seq<char>|
                #![trigger r.lookup(s, n)]
                r.lookup(s, n) == if s == VariableScope::Environment && assigned(variables@, n) is Some {
                    Some(
                        DefinitionView {
                            name: n,
                            value: assigned(variables@, n)->0,
                            is_secret: false,
                            enabled: true,
                            source: SourceView {
                                scope: s,
                                resource_id: None,
                                label: scope_label_spec(s),
                            },
                        },
                    )
                } else {
                    self.lookup(s, n)
                },
    {
        self.with_values(VariableScope::Environment, variables)
    }

    pub fn with_collection(self, variables: Vec<(String, String)>) -> (r: Self)
        requires
            self.wf(),
        ensures
            r.wf(),
            r.max_depth_spec() == self.max_depth_spec(),
            r.provider_count() == self.provider_count(),
            forall|s: VariableScope, n: Seq<char>|
                #![trigger r.lookup(s, n)]
                r.lookup(s, n) == if s == VariableScope::Collection && assigned(variables@, n) is Some {
                    Some(
                        DefinitionView {
                            name: n,
                            value: assigned(variables@, n)->0,
                            is_secret: false,
                            enabled: true,
                            source: SourceView {
                                scope: s,
                                resource_id: None,
                                label: scope_label_spec(s),
                            },
                        },
                    )
                } else {
                    self.lookup(s, n)
                },
    {
        self.with_values(VariableScope::Collection, variables)
    }

    pub fn with_folder(self, variables: Vec<(String, String)>) -> (r: Self)
        requires
            self.wf(),
        ensures
            r.wf(),
            r.max_depth_spec() == self.max_depth_spec(),
            r.provider_count() == self.provider_count(),
            forall|s: VariableScope, n: Seq<char>|
                #![trigger r.lookup(s, n)]
                r.lookup(s, n) == if s == VariableScope::Folder && assigned(variables@, n) is Some {
                    Some(
                        DefinitionView {
                            name: n,
                            value: assigned(variables@, n)->0,
                            is_secret: false,
                            enabled: true,
                            source: SourceView {
                                scope: s,
                                resource_id: None,
                                label: scope_label_spec(s),
                            },
                        },
                    )
                } else {
                    self.lookup(s, n)
                },
    {
        self.with_values(VariableScope::Folder, variables)
    }

    pub fn with_request(self, variables: Vec<(String, String)>) -> (r: Self)
        requires
            self.wf(),
        ensures
            r.wf(),
            r.max_depth_spec() == self.max_depth_spec(),
            r.provider_count() == self.provider_count(),
            forall|s: VariableScope, n: Seq<char>|
                #![trigger r.lookup(s, n)]
                r.lookup(s, n) == if s == VariableScope::Request && assigned(variables@, n) is Some {
                    Some(
                        DefinitionView {
                            name: n,
                            value: assigned(variables@, n)->0,
                            is_secret: false,
                            enabled: true,
                            source: SourceView {
                                scope: s,
                                resource_id: None,
                                label: scope_label_spec(s),
                            },
                        },
                    )
                } else {
                    self.lookup(s, n)
                },
    {
        self.with_values(VariableScope::Request, variables)
    }

    pub fn with_iteration(self, variables: Vec<(String, String)>) -> (r: Self)
        requires
            self.wf(),
        ensures
            r.wf(),
            r.max_depth_spec() == self.max_depth_spec(),
            r.provider_count() == self.provider_count(),
            forall|s: VariableScope, n: Seq<char>|
                #![trigger r.lookup(s, n)]
                r.lookup(s, n) == if s == VariableScope::Iteration && assigned(variables@, n) is Some {
                    Some(
                        DefinitionView {
                            name: n,
                            value: assigned(variables@, n)->0,
                            is_secret: false,
                            enabled: true,
                            source: SourceView {
                                scope: s,
                                resource_id: None,
                                label: scope_label_spec(s),
                            },
                        },
                    )
                } else {
                    self.lookup(s, n)
                },
    {
        self.with_values(VariableScope::Iteration, variables)
    }

    /// Temporary values live in the `Ephemeral` scope, the narrowest.
    pub fn with_temporary(self, variables: Vec<(String, String)>) -> (r: Self)
        requires
            self.wf(),
        ensures
            r.wf(),
            r.max_depth_spec() == self.max_depth_spec(),
            r.provider_count() == self.provider_count(),
            forall|s: VariableScope, n: Seq<char>|
                #![trigger r.lookup(s, n)]
                r.lookup(s, n) == if s == VariableScope::Ephemeral && assigned(variables@, n) is Some {
                    Some(
                        DefinitionView {
                            name: n,
                            value: assigned(variables@, n)->0,
                            is_secret: false,
                            enabled: true,
                            source: SourceView {
                                scope: s,
                                resource_id: None,
                                label: scope_label_spec(s),
                            },
                        },
                    )
                } else {
                    self.lookup(s, n)
                },
    {
        self.with_values(VariableScope::Ephemeral, variables)
    }

    /// Adds vault credentials: secret definitions labelled `Vault`.
    pub fn with_vault(self, variables: Vec<(String, String)>) -> (r: Self)
        requires
            self.wf(),
        ensures
            r.wf(),
            r.max_depth_spec() == self.max_depth_spec(),
            r.provider_count() == self.provider_count(),
            forall|s: VariableScope, n: Seq<char>|
                #![trigger r.lookup(s, n)]
                r.lookup(s, n) == if s == VariableScope::Vault && assigned(variables@, n) is Some {
                    Some(
                        DefinitionView {
                            name: n,
                            value: assigned(variables@, n)->0,
                            is_secret: true,
                            enabled: true,
                            source: SourceView {
                                scope: s,
                                resource_id: None,
                                label: "Vault"@,
                            },
                        },
                    )
                } else {
                    self.lookup(s, n)
                },
    {
        let defs = definitions_of(&variables, VariableScope::Vault, true);
        proof {
            assert forall|n: Seq<char>| #[trigger] assigned_definition(defs@, n) == match assigned(variables@, n) {
                Some(v) => Some(DefinitionView {
                    name: n,
                    value: v,
                    is_secret: true,
                    enabled: true,
                    source: SourceView { scope: VariableScope::Vault, resource_id: None, label: scope_label_spec(VariableScope::Vault) },
                }),
                None => None,
            } by {
                lemma_assigned_definitions(variables@, defs@, VariableScope::Vault, true, n);
            }
        }
        self.with_definitions(VariableScope::Vault, defs)
    }

    /// Limits nested resolution to `max_depth` levels (at least one).
    pub fn with_max_depth(self, max_depth: usize) -> (r: Self)
        requires
            self.wf(),
        ensures
            r.wf(),
            r.max_depth_spec() == if max_depth >= 1 { max_depth as int } else { 1 },
            r.provider_count() == self.provider_count(),
            forall|s: VariableScope, n: Seq<char>| #[trigger] r.lookup(s, n) == self.lookup(s, n),
    {
        let mut r = self;
        r.max_depth = if max_depth >= 1 { max_depth } else { 1 };
        r
    }

    /// Registers a provider, consulted before those registered earlier.
    pub fn register_dynamic_provider(&mut self, provider: Arc<dyn DynamicVariableProvider>)
        requires
            old(self).wf(),
        ensures
            final(self).wf(),
            final(self).provider_count() == old(self).provider_count() + 1,
            final(self).max_depth_spec() == old(self).max_depth_spec(),
            forall|s: VariableScope, n: Seq<char>|
                #[trigger] final(self).lookup(s, n) == old(self).lookup(s, n),
    {
        append(provider, &mut self.dynamic_providers);
    }
}

/// Appends `item` to `list`.
fn append<T>(item: T, list: &mut Vec<T>)
    ensures
        final(list)@ == old(list)@.push(item),
{
    list.push(item);
}

/// Definitions for name/value pairs in `scope`, labelled after the scope.
fn definitions_of(variables: &Vec<(String, String)>, scope: VariableScope, secret: bool) -> (r: Vec<VariableDefinition>)
    ensures
        r@.len() == variables@.len(),
        forall|k: int|
            0 <= k < r@.len() ==> (#[trigger] r@[k])@ == (DefinitionView {
                name: variables@[k].0@,
                value: variables@[k].1@,
                is_secret: secret,
                enabled: true,
                source: SourceView { scope: scope, resource_id: None, label: scope_label_spec(scope) },
            }),
{
    let mut r: Vec<VariableDefinition> = Vec::new();
    let mut i: usize = 0;
    while i < variables.len()
        invariant
            i <= variables.len(),
            r@.len() == i,
            forall|k: int|
                0 <= k < i ==> (#[trigger] r@[k])@ == (DefinitionView {
                    name: variables@[k].0@,
                    value: variables@[k].1@,
                    is_secret: secret,
                    enabled: true,
                    source: SourceView { scope: scope, resource_id: None, label: scope_label_spec(scope) },
                }),
        decreases variables.len() - i,
    {
        let d = VariableDefinition {
            name: variables[i].0.clone(),
            value: variables[i].1.clone(),
            is_secret: secret,
            enabled: true,
            source: VariableSource::new(scope, scope_label(scope)),
        };
        r.push(d);
        i = i + 1;
    }
    r
}

proof fn lemma_assigned_definitions(
    vars: Seq<(String, String)>,
    defs: Seq<VariableDefinition>,
    scope: VariableScope,
    secret: bool,
    n: Seq<char>,
)
    requires
        defs.len() == vars.len(),
        forall|k: int|
            0 <= k < defs.len() ==> (#[trigger] defs[k])@ == (DefinitionView {
                name: vars[k].0@,
                value: vars[k].1@,
                is_secret: secret,
                enabled: true,
                source: SourceView { scope: scope, resource_id: None, label: scope_label_spec(scope) },
            }),
    ensures
        assigned_definition(defs, n) == match assigned(vars, n) {
            Some(v) => Some(DefinitionView {
                name: n,
                value: v,
                is_secret: secret,
                enabled: true,
                source: SourceView { scope: scope, resource_id: None, label: scope_label_spec(scope) },
            }),
            None => None,
        },
    decreases vars.len(),
{
    if vars.len() > 0 {
        assert(defs.last() == defs[defs.len() - 1]);
        lemma_assigned_definitions(vars.drop_last(), defs.drop_last(), scope, secret, n);
    }
}


// ---------------------------------------------------------------------------
// Resolution
// ---------------------------------------------------------------------------

pub open spec fn opt_chars(o: Option<Vec<char>>) -> Option<Seq<char>> {
    match o {
        Some(v) => Some(v@),
        None => None,
    }
}

proof fn lemma_stack_index(s: Seq<Seq<char>>, name: Seq<char>, i: int)
    requires
        0 <= i < s.len(),
        s[i] == name,
        forall|j: int| 0 <= j < i ==> s[j] != name,
    ensures
        stack_index(s, name) == i,
    decreases i,
{
    if i > 0 {
        lemma_stack_index(s.drop_first(), name, i - 1);
    }
}

/// Position of the first entry of `stack` equal to `name`.
fn stack_position(stack: &Vec<String>, name: &[char]) -> (r: Option<usize>)
    ensures
        match r {
            Some(i) => i < stack.len() && strs(stack@).contains(name@) && i == stack_index(
                strs(stack@),
                name@,
            ),
            None => !strs(stack@).contains(name@),
        },
{
    let mut i: usize = 0;
    while i < stack.len()
        invariant
            i <= stack.len(),
            forall|j: int| 0 <= j < i ==> strs(stack@)[j] != name@,
        decreases stack.len() - i,
    {
        let entry = chars_of(stack[i].as_str());
        if seq_eq(&entry, name) {
            proof {
                lemma_stack_index(strs(stack@), name@, i as int);
                assert(strs(stack@)[i as int] == name@);
            }
            return Some(i);
        }
        i = i + 1;
    }
    proof {
        if strs(stack@).contains(name@) {
            let j = choose|j: int| 0 <= j < strs(stack@).len() && strs(stack@)[j] == name@;
            assert(strs(stack@)[j] != name@);
        }
    }
    None
}

/// Whether some occurrence resolved to a secret.
fn has_secret(occs: &Vec<ResolutionOccurrence>) -> (r: bool)
    ensures
        r == any_secret(occs@),
{
    let mut i: usize = 0;
    while i < occs.len()
        invariant
            i <= occs.len(),
            forall|k: int|
                0 <= k < i ==> !((#[trigger] occs@[k]).resolved matches Some(v) && v.is_secret),
        decreases occs.len() - i,
    {
        match &occs[i].resolved {
            Some(v) => {
                if v.is_secret {
                    assert((occs@[i as int]).resolved matches Some(v) && v.is_secret);
                    return true;
                }
            },
            None => {},
        }
        i = i + 1;
    }
    false
}

fn error_kind_of(e: &VariableResolveError) -> (k: VariableDiagnosticKind)
    ensures
        k == error_kind(e@),
{
    match e {
        VariableResolveError::Unresolved(_) => VariableDiagnosticKind::UnresolvedReference,
        VariableResolveError::Cycle(_) => VariableDiagnosticKind::CyclicReference,
        VariableResolveError::MaximumDepth(_) => VariableDiagnosticKind::MaximumDepthExceeded,
    }
}

/// A dynamic value as a resolved variable: masked when secret.
fn dynamic_resolved(name: &[char], generated: GeneratedVariable) -> (r: ResolvedVariable)
    requires
        name@.len() > 0,
        name@[0] == '$',
    ensures
        dynamic_shape(name@, r),
        r.value@ == generated.value@,
        r.is_secret == generated.is_secret,
{
    let display_value = if generated.is_secret {
        SECRET_MASK.to_owned()
    } else {
        generated.value.clone()
    };
    ResolvedVariable {
        name: string_of(name),
        display_value,
        value: generated.value,
        is_secret: generated.is_secret,
        provenance: ResolutionProvenance {
            source: VariableSource::new(VariableScope::BuiltIn, "Dynamic variable"),
            definition_name: string_of(name),
            object_path: None,
        },
    }
}

proof fn lemma_assembly_step(
    t: Seq<char>,
    refs: Seq<ReferenceView>,
    k: int,
    occs: Seq<ResolutionOccurrence>,
    o: ResolutionOccurrence,
)
    requires
        0 <= k < refs.len(),
        occs.len() == k,
    ensures
        out_value(t, refs.take(k + 1), occs.push(o)) == out_value(t, refs.take(k), occs)
            + text_before(t, refs, k) + output_of(t, refs[k], o),
        out_display(t, refs.take(k + 1), occs.push(o)) == out_display(t, refs.take(k), occs)
            + text_before(t, refs, k) + display_of(t, refs[k], o),
        ranges_ok(t, refs.take(k + 1), occs.push(o)) == (o.output_range.start == out_value(
            t,
            refs.take(k),
            occs,
        ).len() + text_before(t, refs, k).len() && o.output_range.end == o.output_range.start
            + output_of(t, refs[k], o).len() && ranges_ok(t, refs.take(k), occs)),
        tail_start(refs.take(k + 1)) == refs[k].end,
        cursor_before(refs, k) == tail_start(refs.take(k)),
{
    let rt = refs.take(k + 1);
    assert(rt.drop_last() =~= refs.take(k));
    assert(occs.push(o).drop_last() =~= occs);
    assert(rt[k] == refs[k]);
    if k > 0 {
        assert(rt[k - 1] == refs[k - 1]);
    }
    assert(text_before(t, rt, k) == text_before(t, refs, k));
}

impl VariableResolver {
    /// Index of the enabled definition of `name` in `scope`.
    fn scope_definition(&self, scope: VariableScope, name: &[char]) -> (r: Option<usize>)
        requires
            self.wf(),
        ensures
            match r {
                Some(i) => i < self.entries.len() && self.active(scope, name@) == Some(
                    self.entries[i as int]@,
                ),
                None => self.active(scope, name@) is None,
            },
    {
        match self.index_of(scope, name) {
            Some(i) => {
                proof {
                    self.lemma_lookup_at(i as int, scope, name@);
                }
                if self.entries[i].enabled {
                    Some(i)
                } else {
                    None
                }
            },
            None => None,
        }
    }

    /// Index of the enabled definition of `name` in the narrowest scope.
    fn first_active_index(&self, name: &[char]) -> (r: Option<usize>)
        requires
            self.wf(),
        ensures
            match r {
                Some(i) => i < self.entries.len() && self.first_active(name@) == Some(
                    self.entries[i as int]@,
                ),
                None => self.first_active(name@) is None,
            },
    {
        let mut k: usize = 0;
        while k < 7
            invariant
                k <= 7,
                self.wf(),
                self.first_active(name@) == self.first_active_from(name@, k as int),
            decreases 7 - k,
        {
            match self.scope_definition(precedence_at(k), name) {
                Some(i) => {
                    return Some(i);
                },
                None => {},
            }
            k = k + 1;
        }
        None
    }

    /// Definition and dot position for a name whose part before a dot is defined.
    fn dotted_index(&self, name: &[char]) -> (r: Option<(usize, usize)>)
        requires
            self.wf(),
        ensures
            match r {
                Some((i, q)) => i < self.entries.len() && q < name.len() && self.dotted_lookup(
                    name@,
                    name@.len() - 1,
                ) == Some((self.entries[i as int]@, name@.subrange(q + 1, name@.len() as int))),
                None => self.dotted_lookup(name@, name@.len() - 1) is None,
            },
    {
        let mut p: usize = name.len();
        while p > 0
            invariant
                p <= name.len(),
                self.wf(),
                self.dotted_lookup(name@, name@.len() - 1) == self.dotted_lookup(name@, p - 1),
            decreases p,
        {
            let q = p - 1;
            if name[q] == '.' {
                let base = slice_range(name, 0, q);
                match self.first_active_index(&base) {
                    Some(i) => {
                        return Some((i, q));
                    },
                    None => {},
                }
            }
            p = q;
        }
        None
    }

    /// The definition `name` refers to, with its object path.
    fn find_definition(&self, name: &[char]) -> (r: Option<(usize, Option<Vec<char>>)>)
        requires
            self.wf(),
        ensures
            match r {
                Some((i, path)) => i < self.entries.len() && self.find_definition_spec(name@)
                    == Some((self.entries[i as int]@, opt_chars(path))),
                None => self.find_definition_spec(name@) is None,
            },
    {
        let prefix = chars_of("vault:");
        proof {
            reveal_strlit("vault:");
        }
        if starts_with(name, &prefix) {
            let rest = slice_range(name, prefix.len(), name.len());
            return match self.scope_definition(VariableScope::Vault, &rest) {
                Some(i) => Some((i, None)),
                None => None,
            };
        }
        match self.first_active_index(name) {
            Some(i) => {
                return Some((i, None));
            },
            None => {},
        }
        match self.dotted_index(name) {
            Some((i, q)) => Some((i, Some(slice_range(name, q + 1, name.len())))),
            None => None,
        }
    }

    /// The outcome once a definition's value has been resolved to `nested`.
    fn conclude(
        &self,
        name: &[char],
        i: usize,
        path: Option<Vec<char>>,
        nested: ResolutionResult,
    ) -> (out: Result<ResolvedVariable, VariableResolveError>)
        requires
            i < self.entries.len(),
        ensures
            self.nested_outcome(name@, self.entries[i as int]@, opt_chars(path), nested, out),
    {
        if nested.diagnostics.len() > 0 {
            let kind = nested.diagnostics[0].kind;
            return Err(
                match kind {
                    VariableDiagnosticKind::CyclicReference => {
                        let chain = vec![string_of(name)];
                        assert(strs(chain@) =~= seq![name@]);
                        VariableResolveError::Cycle(chain)
                    },
                    VariableDiagnosticKind::MaximumDepthExceeded => VariableResolveError::MaximumDepth(
                        self.max_depth,
                    ),
                    _ => VariableResolveError::Unresolved(string_of(name)),
                },
            );
        }
        let value = match &path {
            Some(p) => match resolve_json_path(nested.value.as_str(), p) {
                Some(v) => v,
                None => {
                    return Err(VariableResolveError::Unresolved(string_of(name)));
                },
            },
            None => nested.value.clone(),
        };
        let secret = self.entries[i].is_secret || has_secret(&nested.occurrences);
        let display_value = if secret {
            SECRET_MASK.to_owned()
        } else {
            value.clone()
        };
        let object_path = match &path {
            Some(p) => Some(string_of(p)),
            None => None,
        };
        Ok(
            ResolvedVariable {
                name: string_of(name),
                value,
                display_value,
                is_secret: secret,
                provenance: ResolutionProvenance {
                    source: self.entries[i].source.copy(),
                    definition_name: self.entries[i].name.clone(),
                    object_path,
                },
            },
        )
    }
}


impl VariableResolver {
    /// Resolves one name at nesting `depth`, with `stack` the names being
    /// resolved around it; `stack` is left as it was found.
    fn resolve_name(&self, name: &[char], stack: &mut Vec<String>, depth: usize) -> (out: Result<
        ResolvedVariable,
        VariableResolveError,
    >)
        requires
            self.wf(),
        ensures
            self.name_ok(name@, strs(old(stack)@), depth as int, out),
            final(stack)@ == old(stack)@,
        decreases self.max_depth - depth, 0int,
    {
        if depth >= self.max_depth {
            return Err(VariableResolveError::MaximumDepth(self.max_depth));
        }
        match stack_position(stack, name) {
            Some(start) => {
                let mut chain: Vec<String> = Vec::new();
                let mut j: usize = start;
                while j < stack.len()
                    invariant
                        start <= j <= stack.len(),
                        strs(chain@) == strs(stack@).subrange(start as int, j as int),
                    decreases stack.len() - j,
                {
                    let ghost before = chain@;
                    chain.push(stack[j].clone());
                    proof {
                        assert(strs(chain@) =~= strs(before).push(stack@[j as int]@));
                        assert(strs(stack@).subrange(start as int, j + 1) =~= strs(stack@).subrange(
                            start as int,
                            j as int,
                        ).push(strs(stack@)[j as int]));
                    }
                    j = j + 1;
                }
                let ghost before = chain@;
                chain.push(string_of(name));
                proof {
                    assert(strs(chain@) =~= strs(before).push(name@));
                }
                return Err(VariableResolveError::Cycle(chain));
            },
            None => {},
        }
        if name.len() > 0 && name[0] == '$' {
            let name_text = string_of(name);
            let mut k: usize = self.dynamic_providers.len();
            while k > 0
                invariant
                    k <= self.dynamic_providers.len(),
                    name@.len() > 0,
                    name@[0] == '$',
                    depth < self.max_depth,
                    !strs(stack@).contains(name@),
                decreases k,
            {
                k = k - 1;
                match self.dynamic_providers[k].generate(name_text.as_str()) {
                    Some(generated) => {
                        return Ok(dynamic_resolved(name, generated));
                    },
                    None => {},
                }
            }
            let builtin = BuiltInDynamicVariables;
            match builtin.generate(name_text.as_str()) {
                Some(generated) => {
                    return Ok(dynamic_resolved(name, generated));
                },
                None => {},
            }
        }
        match self.find_definition(name) {
            None => Err(VariableResolveError::Unresolved(string_of(name))),
            Some((i, path)) => {
                if self.entries[i].source.scope == VariableScope::Vault {
                    return Ok(
                        ResolvedVariable {
                            name: string_of(name),
                            value: self.entries[i].value.clone(),
                            display_value: SECRET_MASK.to_owned(),
                            is_secret: true,
                            provenance: ResolutionProvenance {
                                source: self.entries[i].source.copy(),
                                definition_name: self.entries[i].name.clone(),
                                object_path: None,
                            },
                        },
                    );
                }
                let ghost outer = strs(stack@);
                let body = chars_of(self.entries[i].value.as_str());
                stack.push(string_of(name));
                proof {
                    assert(strs(stack@) =~= outer.push(name@));
                }
                let nested = self.resolve_template_inner(&body, stack, depth + 1);
                stack.pop();
                let ghost witness = nested;
                let out = self.conclude(name, i, path, nested);
                assert(self.template_ok(
                    self.entries[i as int]@.value,
                    outer.push(name@),
                    depth + 1,
                    witness,
                ) && self.nested_outcome(
                    name@,
                    self.entries[i as int]@,
                    opt_chars(path),
                    witness,
                    out,
                ));
                out
            },
        }
    }

    /// Resolves every reference of `template` at nesting `depth`.
    #[verifier::rlimit(40)]
    fn resolve_template_inner(&self, template: &[char], stack: &mut Vec<String>, depth: usize) -> (res:
        ResolutionResult)
        requires
            self.wf(),
        ensures
            self.template_ok(template@, strs(old(stack)@), depth as int, res),
            final(stack)@ == old(stack)@,
        decreases self.max_depth - depth, 1int,
    {
        let ghost t = template@;
        let ghost st = strs(stack@);
        let parsed = parse_chars(template);
        let ghost p = parse_spec(t);
        let ghost refs = p.0;
        proof {
            lemma_parse_in_order(t, 0, 0);
        }
        let references = parsed.references;
        let mut diagnostics = parsed.diagnostics;
        let mut value: Vec<char> = Vec::new();
        let mut display: Vec<char> = Vec::new();
        let mut occurrences: Vec<ResolutionOccurrence> = Vec::new();
        let mut cursor: usize = 0;
        let mut k: usize = 0;
        let ghost mut fails: Seq<DiagnosticView> = Seq::empty();
        proof {
            assert(refs.take(0) =~= Seq::<ReferenceView>::empty());
            assert(refs.skip(0) =~= refs);
            assert(diag_views(diagnostics@) =~= p.1 + fails);
            assert(refs.len() == references@.len());
        }
        while k < references.len()
            invariant
                self.wf(),
                stack@ == old(stack)@,
                st == strs(old(stack)@),
                t == template@,
                p == parse_spec(t),
                refs == p.0,
                ref_views(references@) == refs,
                refs.len() == references.len(),
                k <= references.len(),
                occurrences@.len() == k,
                cursor == tail_start(refs.take(k as int)),
                refs_from(t, refs.skip(k as int), cursor as int),
                cursor <= t.len(),
                diag_views(diagnostics@) == p.1 + fails,
                self.occs_ok(refs.take(k as int), occurrences@, fails, st, depth as int),
                value@ == out_value(t, refs.take(k as int), occurrences@),
                display@ == out_display(t, refs.take(k as int), occurrences@),
                ranges_ok(t, refs.take(k as int), occurrences@),
            decreases references.len() - k,
        {
            let reference = references[k].copy();
            let ghost r = refs[k as int];
            let ghost occs0 = occurrences@;
            let ghost fails0 = fails;
            proof {
                assert(refs[k as int] == references@[k as int]@);
                assert(refs.skip(k as int)[0] == r);
                assert(refs.skip(k as int).drop_first() =~= refs.skip(k + 1));
                assert(refs.take(k + 1).drop_last() =~= refs.take(k as int));
                assert(refs.take(k + 1)[k as int] == r);
            }
            let start = reference.range.start;
            let end = reference.range.end;
            let occurrence;
            if reference.escaped {
                extend_range(&mut value, template, cursor, start - 1);
                extend_range(&mut display, template, cursor, start - 1);
                let output_start = value.len();
                extend_range(&mut value, template, start, end);
                extend_range(&mut display, template, start, end);
                occurrence = ResolutionOccurrence {
                    reference,
                    output_range: Range { start: output_start, end: value.len() },
                    resolved: None,
                };
            } else {
                extend_range(&mut value, template, cursor, start);
                extend_range(&mut display, template, cursor, start);
                let output_start = value.len();
                if reference.valid {
                    let name = chars_of(reference.name.as_str());
                    match self.resolve_name(&name, stack, depth) {
                        Ok(resolved) => {
                            extend_str(&mut value, resolved.value.as_str());
                            extend_str(&mut display, resolved.display_value.as_str());
                            occurrence = ResolutionOccurrence {
                                reference,
                                output_range: Range { start: output_start, end: value.len() },
                                resolved: Some(resolved),
                            };
                        },
                        Err(error) => {
                            extend_range(&mut value, template, start, end);
                            extend_range(&mut display, template, start, end);
                            let ghost e = error;
                            let diagnostic = VariableDiagnostic {
                                kind: error_kind_of(&error),
                                range: Range { start, end },
                                message: error.message(),
                            };
                            let ghost before = diagnostics@;
                            diagnostics.push(diagnostic);
                            proof {
                                fails = fails.push(error_diagnostic(r, e@));
                                assert(diag_views(diagnostics@) =~= diag_views(before).push(
                                    diagnostics@.last()@,
                                ));
                                assert(diag_views(diagnostics@) =~= p.1 + fails);
                                assert(fails.drop_last() =~= fails0);
                                assert(self.name_ok(r.name, st, depth as int, Err(e))
                                    && fails.last() == error_diagnostic(r, e@));
                            }
                            occurrence = ResolutionOccurrence {
                                reference,
                                output_range: Range { start: output_start, end: value.len() },
                                resolved: None,
                            };
                        },
                    }
                } else {
                    extend_range(&mut value, template, start, end);
                    extend_range(&mut display, template, start, end);
                    occurrence = ResolutionOccurrence {
                        reference,
                        output_range: Range { start: output_start, end: value.len() },
                        resolved: None,
                    };
                }
            }
            let ghost o = occurrence;
            occurrences.push(occurrence);
            proof {
                lemma_assembly_step(t, refs, k as int, occs0, o);
                assert(occurrences@ =~= occs0.push(o));
                assert(occurrences@.drop_last() =~= occs0);
                assert(occurrences@[k as int] == o);
                assert(o.reference@ == r);
                let rk = refs.take(k + 1);
                assert(rk.len() == k + 1);
                assert(rk.drop_last() =~= refs.take(k as int));
                if r.escaped || !r.valid {
                    assert(fails == fails0);
                    assert(o.resolved is None);
                    assert(self.occs_ok(rk.drop_last(), occurrences@.drop_last(), fails, st, depth as int));
                    assert(self.occs_ok(rk, occurrences@, fails, st, depth as int));
                } else if o.resolved is Some {
                    assert(fails == fails0);
                    assert(self.name_ok(r.name, st, depth as int, Ok(o.resolved->0)));
                    assert(self.occs_ok(rk.drop_last(), occurrences@.drop_last(), fails, st, depth as int));
                    assert(self.occs_ok(rk, occurrences@, fails, st, depth as int));
                } else {
                    assert(fails.drop_last() == fails0);
                    assert(fails.len() > 0);
                    assert(self.occs_ok(rk.drop_last(), occurrences@.drop_last(), fails.drop_last(), st, depth as int));
                    let ek = choose|e: VariableResolveError|
                            #[trigger] self.name_ok(r.name, st, depth as int, Err(e))
                                && fails.last() == error_diagnostic(r, e@);
                    self.lemma_occs_fail_step(rk, occurrences@, fails, st, depth as int, ek);
                }
            }
            cursor = end;
            k = k + 1;
        }
        proof {
            assert(refs.take(k as int) =~= refs);
        }
        extend_range(&mut value, template, cursor, template.len());
        extend_range(&mut display, template, cursor, template.len());
        proof {
            let ds = diag_views(diagnostics@);
            assert(ds.subrange(0, p.1.len() as int) =~= p.1);
            assert(ds.subrange(p.1.len() as int, ds.len() as int) =~= fails);
        }
        ResolutionResult {
            value: string_of(&value),
            display_value: string_of(&display),
            occurrences,
            diagnostics,
        }
    }
}


impl VariableResolver {
    proof fn lemma_occs_fail_step(
        self,
        refs: Seq<ReferenceView>,
        occs: Seq<ResolutionOccurrence>,
        fails: Seq<DiagnosticView>,
        stack: Seq<Seq<char>>,
        depth: int,
        e: VariableResolveError,
    )
        requires
            refs.len() > 0,
            occs.len() == refs.len(),
            occs.last().reference@ == refs.last(),
            !refs.last().escaped,
            refs.last().valid,
            occs.last().resolved is None,
            fails.len() > 0,
            self.name_ok(refs.last().name, stack, depth, Err(e)),
            fails.last() == error_diagnostic(refs.last(), e@),
            self.occs_ok(refs.drop_last(), occs.drop_last(), fails.drop_last(), stack, depth),
        ensures
            self.occs_ok(refs, occs, fails, stack, depth),
    {
    }
}


impl Default for VariableResolver {
    /// The same as `new`.
    fn default() -> (r: Self)
        ensures
            r.wf(),
            forall|scope: VariableScope, name: Seq<char>| r.lookup(scope, name) is None,
            r.max_depth_spec() == 32,
            r.provider_count() == 0,
    {
        VariableResolver::new()
    }
}

impl VariableResolver {
    /// Resolves one variable name, following nested references.
    pub fn resolve(&self, name: &str) -> (r: Result<ResolvedVariable, VariableResolveError>)
        requires
            self.wf(),
        ensures
            self.name_ok(name@, Seq::empty(), 0, r),
    {
        let mut stack: Vec<String> = Vec::new();
        assert(strs(stack@) =~= Seq::<Seq<char>>::empty());
        let n = chars_of(name);
        self.resolve_name(&n, &mut stack, 0)
    }

    /// The value of a variable, or `None` when it cannot be resolved.
    pub fn resolve_var(&self, name: &str) -> (r: Option<String>)
        requires
            self.wf(),
        ensures
            match r {
                Some(v) => exists|rv: ResolvedVariable|
                    #[trigger] self.name_ok(name@, Seq::empty(), 0, Ok(rv)) && rv.value@ == v@,
                None => exists|e: VariableResolveError|
                    #[trigger] self.name_ok(name@, Seq::empty(), 0, Err(e)),
            },
    {
        match self.resolve(name) {
            Ok(resolved) => {
                let ghost rv = resolved;
                assert(self.name_ok(name@, Seq::empty(), 0, Ok(rv)));
                Some(resolved.value)
            },
            Err(e) => {
                assert(self.name_ok(name@, Seq::empty(), 0, Err(e)));
                None
            },
        }
    }

    /// Resolves every reference of a template.
    pub fn resolve_template(&self, template: &str) -> (res: ResolutionResult)
        requires
            self.wf(),
        ensures
            self.template_ok(template@, Seq::empty(), 0, res),
    {
        let mut stack: Vec<String> = Vec::new();
        assert(strs(stack@) =~= Seq::<Seq<char>>::empty());
        let t = chars_of(template);
        self.resolve_template_inner(&t, &mut stack, 0)
    }

    /// The execution value of a resolved template.
    pub fn interpolate(&self, template: &str) -> (r: String)
        requires
            self.wf(),
        ensures
            exists|res: ResolutionResult|
                #[trigger] self.template_ok(template@, Seq::empty(), 0, res) && r@ == res.value@,
    {
        let res = self.resolve_template(template);
        let ghost g = res;
        assert(self.template_ok(template@, Seq::empty(), 0, g));
        res.value
    }
}


// ---------------------------------------------------------------------------
// Laws
// ---------------------------------------------------------------------------

impl VariableResolver {
    proof fn lemma_active_scope(self, scope: VariableScope, name: Seq<char>)
        requires
            self.wf(),
        ensures
            self.active(scope, name) matches Some(d) ==> d.source.scope == scope && d.name == name,
    {
        if exists|i: int| key_at(self.entries@, i, scope, name) {
            let i = choose|i: int| key_at(self.entries@, i, scope, name);
            assert(self.entries@[i]@.source.scope == scope);
        }
    }

    proof fn lemma_first_active_at(self, name: Seq<char>, k: int, j: int)
        requires
            0 <= j <= k < 7,
            self.active(precedence_scope(k), name) is Some,
            forall|m: int| 0 <= m < k ==> self.active(#[trigger] precedence_scope(m), name) is None,
        ensures
            self.first_active_from(name, j) == self.active(precedence_scope(k), name),
        decreases k - j,
    {
        if j < k {
            self.lemma_first_active_at(name, k, j + 1);
            assert(self.active(precedence_scope(j), name) is None);
        }
    }
}

/// Resolving plain text, without `{{`, gives the text back with nothing
/// resolved and nothing reported.
pub proof fn law_plain_template_is_unchanged(
    resolver: VariableResolver,
    t: Seq<char>,
    stack: Seq<Seq<char>>,
    depth: int,
    res: ResolutionResult,
)
    requires
        !has_open_braces(t),
        resolver.template_ok(t, stack, depth, res),
    ensures
        res.value@ == t,
        res.display_value@ == t,
        res.occurrences@.len() == 0,
        res.diagnostics@.len() == 0,
{
    lemma_parse_plain(t, 0);
    let p = parse_spec(t);
    assert(p.0 =~= Seq::<ReferenceView>::empty());
    assert(t.subrange(0, t.len() as int) =~= t);
    let ds = diag_views(res.diagnostics@);
    assert(ds.subrange(0, 0) =~= ds.take(0));
    assert(ds.subrange(0, ds.len() as int) =~= ds);
}

/// Narrower scopes always win: when the narrowest scope with an enabled
/// definition of a plain name holds plain text, the name resolves to that
/// text, with that scope as its source.
pub proof fn law_narrowest_scope_wins(
    resolver: VariableResolver,
    name: Seq<char>,
    k: int,
    out: Result<ResolvedVariable, VariableResolveError>,
)
    requires
        resolver.wf(),
        0 <= k < 7,
        name.len() == 0 || name[0] != '$',
        !is_prefix_seq("vault:"@, name),
        resolver.active(precedence_scope(k), name) is Some,
        forall|m: int| 0 <= m < k ==> resolver.active(#[trigger] precedence_scope(m), name) is None,
        !has_open_braces(resolver.active(precedence_scope(k), name)->0.value),
        resolver.name_ok(name, Seq::empty(), 0, out),
    ensures
        out matches Ok(r) && r.value@ == resolver.active(precedence_scope(k), name)->0.value
            && r.provenance.source@.scope == precedence_scope(k),
{
    let d = resolver.active(precedence_scope(k), name)->0;
    resolver.lemma_first_active_at(name, k, 0);
    resolver.lemma_active_scope(precedence_scope(k), name);
    assert(resolver.find_definition_spec(name) == Some((d, None::<Seq<char>>)));
    assert(d.source.scope != VariableScope::Vault);
    let stack = Seq::<Seq<char>>::empty().push(name);
    let nested = choose|nested: ResolutionResult|
        resolver.template_ok(d.value, stack, 1, nested) && #[trigger] resolver.nested_outcome(
            name,
            d,
            None,
            nested,
            out,
        );
    law_plain_template_is_unchanged(resolver, d.value, stack, 1, nested);
}

/// Vault values are opaque credentials: `vault:` and a name gives the stored
/// value as it is, never evaluated as a template, displayed only as the mask.
pub proof fn law_vault_values_are_opaque(
    resolver: VariableResolver,
    n: Seq<char>,
    out: Result<ResolvedVariable, VariableResolveError>,
)
    requires
        resolver.wf(),
        resolver.active(VariableScope::Vault, n) is Some,
        resolver.name_ok("vault:"@ + n, Seq::empty(), 0, out),
    ensures
        out matches Ok(r) && r.value@ == resolver.active(VariableScope::Vault, n)->0.value
            && r.display_value@ == SECRET_MASK@ && r.is_secret,
{
    reveal_strlit("vault:");
    let name = "vault:"@ + n;
    assert(name.subrange(0, 6) =~= "vault:"@);
    assert(name.subrange(6, name.len() as int) =~= n);
    resolver.lemma_active_scope(VariableScope::Vault, n);
}

/// A secret value is never displayed: whenever a name resolves, its display
/// value is the mask when the value is secret, and the value itself otherwise.
pub proof fn law_secret_values_are_masked(
    resolver: VariableResolver,
    name: Seq<char>,
    stack: Seq<Seq<char>>,
    depth: int,
    r: ResolvedVariable,
)
    requires
        resolver.name_ok(name, stack, depth, Ok(r)),
    ensures
        r.display_value@ == if r.is_secret {
            SECRET_MASK@
        } else {
            r.value@
        },
{
    if depth >= resolver.max_depth_spec() || depth < 0 || stack.contains(name) || (dynamic_shape(name, r)
        && resolver.dynamic_allowed(name, r)) {
    } else {
        match resolver.find_definition_spec(name) {
            None => {},
            Some((d, path)) => {
                if d.source.scope != VariableScope::Vault {
                    let nested = choose|nested: ResolutionResult|
                        resolver.template_ok(d.value, stack.push(name), depth + 1, nested)
                            && #[trigger] resolver.nested_outcome(name, d, path, nested, Ok(r));
                }
            },
        }
    }
}

/// A definition marked secret stays secret: a plain name whose definition
/// is secret resolves, if at all, to a secret value that displays as the mask.
pub proof fn law_secret_definitions_stay_secret(
    resolver: VariableResolver,
    name: Seq<char>,
    stack: Seq<Seq<char>>,
    depth: int,
    r: ResolvedVariable,
)
    requires
        name.len() == 0 || name[0] != '$',
        resolver.find_definition_spec(name) matches Some((d, _)) && d.is_secret,
        resolver.name_ok(name, stack, depth, Ok(r)),
    ensures
        r.is_secret,
        r.display_value@ == SECRET_MASK@,
{
    let (d, path) = resolver.find_definition_spec(name)->0;
    if d.source.scope != VariableScope::Vault {
        let nested = choose|nested: ResolutionResult|
            resolver.template_ok(d.value, stack.push(name), depth + 1, nested)
                && #[trigger] resolver.nested_outcome(name, d, path, nested, Ok(r));
    }
}


proof fn lemma_outputs_in_value(
    t: Seq<char>,
    refs: Seq<ReferenceView>,
    occs: Seq<ResolutionOccurrence>,
    j: int,
)
    requires
        occs.len() == refs.len(),
        ranges_ok(t, refs, occs),
        0 <= j < refs.len(),
    ensures
        0 <= occs[j].output_range.start <= occs[j].output_range.end <= out_value(t, refs, occs).len(),
        out_value(t, refs, occs).subrange(
            occs[j].output_range.start as int,
            occs[j].output_range.end as int,
        ) == output_of(t, refs[j], occs[j]),
    decreases refs.len(),
{
    let n = refs.len() - 1;
    let prev = out_value(t, refs.drop_last(), occs.drop_last());
    let tb = text_before(t, refs, n);
    let out = output_of(t, refs[n], occs[n]);
    assert(out_value(t, refs, occs) == prev + tb + out);
    let start = occs[j].output_range.start as int;
    let end = occs[j].output_range.end as int;
    if j == n {
        assert((prev + tb + out).subrange(start, end) =~= out);
    } else {
        lemma_outputs_in_value(t, refs.drop_last(), occs.drop_last(), j);
        assert(refs.drop_last()[j] == refs[j]);
        assert(occs.drop_last()[j] == occs[j]);
        assert((prev + tb + out).subrange(start, end) =~= prev.subrange(start, end));
    }
}

impl VariableResolver {
    proof fn lemma_occurrence_references(
        self,
        refs: Seq<ReferenceView>,
        occs: Seq<ResolutionOccurrence>,
        fails: Seq<DiagnosticView>,
        stack: Seq<Seq<char>>,
        depth: int,
        j: int,
    )
        requires
            self.occs_ok(refs, occs, fails, stack, depth),
            0 <= j < refs.len(),
        ensures
            occs.len() == refs.len(),
            occs[j].reference@ == refs[j],
        decreases refs.len(),
    {
        let n = refs.len() - 1;
        if j < n {
            let r = refs[n];
            if r.escaped || !r.valid || occs[n].resolved is Some {
                self.lemma_occurrence_references(
                    refs.drop_last(),
                    occs.drop_last(),
                    fails,
                    stack,
                    depth,
                    j,
                );
            } else {
                self.lemma_occurrence_references(
                    refs.drop_last(),
                    occs.drop_last(),
                    fails.drop_last(),
                    stack,
                    depth,
                    j,
                );
            }
            assert(occs.drop_last()[j] == occs[j]);
        }
    }
}

/// Every reference stays visible in the result: the output range of each
/// occurrence holds, in the execution value, what its reference became: the
/// resolved value, or the reference exactly as written when it was escaped,
/// invalid or unresolved.
pub proof fn law_occurrences_mark_their_output(
    resolver: VariableResolver,
    t: Seq<char>,
    stack: Seq<Seq<char>>,
    depth: int,
    res: ResolutionResult,
    j: int,
)
    requires
        resolver.template_ok(t, stack, depth, res),
        0 <= j < res.occurrences@.len(),
    ensures
        res.occurrences@[j].reference@ == parse_spec(t).0[j],
        res.occurrences@[j].output_range.start <= res.occurrences@[j].output_range.end
            <= res.value@.len(),
        res.value@.subrange(
            res.occurrences@[j].output_range.start as int,
            res.occurrences@[j].output_range.end as int,
        ) == match res.occurrences@[j].resolved {
            Some(v) => v.value@,
            None => t.subrange(
                res.occurrences@[j].reference@.start,
                res.occurrences@[j].reference@.end,
            ),
        },
{
    let p = parse_spec(t);
    let refs = p.0;
    let occs = res.occurrences@;
    let ds = diag_views(res.diagnostics@);
    resolver.lemma_occurrence_references(
        refs,
        occs,
        ds.subrange(p.1.len() as int, ds.len() as int),
        stack,
        depth,
        j,
    );
    lemma_outputs_in_value(t, refs, occs, j);
    let ov = out_value(t, refs, occs);
    let tail = t.subrange(tail_start(refs), t.len() as int);
    let start = occs[j].output_range.start as int;
    let end = occs[j].output_range.end as int;
    assert((ov + tail).subrange(start, end) =~= ov.subrange(start, end));
}

} // verus!
