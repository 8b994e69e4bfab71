//! Editor annotations for template references: highlights, hover details,
//! navigation to definitions and usage search.
//!
//! Only display-safe values leave this module: a secret is shown as the mask.
use vstd::prelude::*;
use std::ops::Range;
use crate::domain::{ResourceId, VariableScope};
use crate::resolver::{
    scope_label, scope_label_spec, DefinitionView, ResolutionResult, ResolvedVariable, SourceView,
    VariableDefinition, VariableResolveError, VariableResolver, VariableSource, SECRET_MASK,
};
use crate::text::{lemma_seq_le_antisymmetric, lemma_seq_le_total, lemma_seq_le_transitive, seq_le, str_eq, str_le};
use crate::template::{
    is_valid_variable_name, parse_spec, parse_template, ref_views, valid_name, ReferenceView,
    VariableDiagnostic,
};

verus! {

broadcast use vstd::seq_lib::group_to_multiset_ensures;

#[derive(Debug, Clone, Copy, PartialEq, Eq, Structural)]
pub enum VariableHighlightState {
    Resolved,
    Dynamic,
    Secret,
    Unresolved,
    Invalid,
}

/// Inline decoration data consumed by URL, header, and body editors.
pub struct VariableHighlight {
    pub name: String,
    pub range: Range<usize>,
    pub state: VariableHighlightState,
    pub accessibility_label: String,
}

pub ghost struct HighlightView {
    pub name: Seq<char>,
    pub start: int,
    pub end: int,
    pub state: VariableHighlightState,
    pub label: Seq<char>,
}

impl View for VariableHighlight {
    type V = HighlightView;

    open spec fn view(&self) -> HighlightView {
        HighlightView {
            name: self.name@,
            start: self.range.start as int,
            end: self.range.end as int,
            state: self.state,
            label: self.accessibility_label@,
        }
    }
}

pub struct VariableEditorAnalysis {
    pub highlights: Vec<VariableHighlight>,
    pub diagnostics: Vec<VariableDiagnostic>,
}

/// Compact hover content shown for a template reference.
#[derive(Debug, Clone, PartialEq, Eq)]
pub struct VariableHoverInfo {
    pub name: String,
    pub display_value: String,
    pub source_label: String,
    pub scope_label: String,
    pub is_secret: bool,
    pub can_jump_to_definition: bool,
}

pub ghost struct HoverView {
    pub name: Seq<char>,
    pub display_value: Seq<char>,
    pub source_label: Seq<char>,
    pub scope_label: Seq<char>,
    pub is_secret: bool,
    pub can_jump_to_definition: bool,
}

impl View for VariableHoverInfo {
    type V = HoverView;

    open spec fn view(&self) -> HoverView {
        HoverView {
            name: self.name@,
            display_value: self.display_value@,
            source_label: self.source_label@,
            scope_label: self.scope_label@,
            is_secret: self.is_secret,
            can_jump_to_definition: self.can_jump_to_definition,
        }
    }
}

/// Where a definition lives, for "go to definition".
#[derive(Debug, Clone, PartialEq, Eq)]
pub struct VariableDefinitionTarget {
    pub name: String,
    pub scope: VariableScope,
    pub source_label: String,
    pub resource_id: Option<ResourceId>,
}

pub ghost struct TargetView {
    pub name: Seq<char>,
    pub scope: VariableScope,
    pub source_label: Seq<char>,
    pub resource_id: Option<ResourceId>,
}

impl View for VariableDefinitionTarget {
    type V = TargetView;

    open spec fn view(&self) -> TargetView {
        TargetView {
            name: self.name@,
            scope: self.scope,
            source_label: self.source_label@,
            resource_id: self.resource_id,
        }
    }
}

/// A searchable text field belonging to a request, collection, or environment.
#[derive(Debug, Clone, PartialEq, Eq)]
pub struct VariableTextResource {
    pub resource_id: ResourceId,
    pub resource_label: String,
    pub field: String,
    pub text: String,
}

/// One reference to a variable found in a text field.
#[derive(Debug, PartialEq, Eq)]
pub struct VariableUsage {
    pub resource_id: ResourceId,
    pub resource_label: String,
    pub field: String,
    pub range: Range<usize>,
}

pub ghost struct UsageView {
    pub resource_id: ResourceId,
    pub label: Seq<char>,
    pub field: Seq<char>,
    pub start: int,
    pub end: int,
}

impl VariableUsage {
    pub fn copy(&self) -> (r: Self)
        ensures
            r@ == self@,
    {
        VariableUsage {
            resource_id: self.resource_id,
            resource_label: self.resource_label.clone(),
            field: self.field.clone(),
            range: Range { start: self.range.start, end: self.range.end },
        }
    }
}

impl View for VariableUsage {
    type V = UsageView;

    open spec fn view(&self) -> UsageView {
        UsageView {
            resource_id: self.resource_id,
            label: self.resource_label@,
            field: self.field@,
            start: self.range.start as int,
            end: self.range.end as int,
        }
    }
}

#[derive(Debug, Clone, PartialEq, Eq)]
pub enum VariableUiError {
    InvalidName(String),
    AlreadyResolved(String),
}

impl VariableUiError {
    /// The text of the error.
    pub fn message(&self) -> (m: String)
        ensures
            m@ == match self {
                VariableUiError::InvalidName(n) => "'"@ + n@ + "' is not a valid variable name"@,
                VariableUiError::AlreadyResolved(n) => "Variable '"@ + n@
                    + "' is already resolved; create-from-unresolved was not applied"@,
            },
    {
        match self {
            VariableUiError::InvalidName(n) => {
                let mut m = "'".to_owned();
                m.push_str(n.as_str());
                m.push_str("' is not a valid variable name");
                m
            },
            VariableUiError::AlreadyResolved(n) => {
                let mut m = "Variable '".to_owned();
                m.push_str(n.as_str());
                m.push_str("' is already resolved; create-from-unresolved was not applied");
                m
            },
        }
    }
}

// ---------------------------------------------------------------------------
// What each annotation shows
// ---------------------------------------------------------------------------

/// The references that are not escaped, in order: escaped references are
/// literal text and get no annotation.
pub open spec fn unescaped(refs: Seq<ReferenceView>) -> Seq<ReferenceView>
    decreases refs.len(),
{
    if refs.len() == 0 {
        Seq::empty()
    } else {
        let rest = unescaped(refs.drop_last());
        if refs.last().escaped {
            rest
        } else {
            rest.push(refs.last())
        }
    }
}

/// The unescaped references of a text.
pub open spec fn live_refs(text: Seq<char>) -> Seq<ReferenceView> {
    unescaped(parse_spec(text).0)
}

pub open spec fn highlight_state(out: Result<ResolvedVariable, VariableResolveError>) -> VariableHighlightState {
    match out {
        Ok(rv) => if rv.is_secret {
            VariableHighlightState::Secret
        } else if rv.provenance.source.scope == VariableScope::BuiltIn {
            VariableHighlightState::Dynamic
        } else {
            VariableHighlightState::Resolved
        },
        Err(_) => VariableHighlightState::Unresolved,
    }
}

pub open spec fn highlight_label(name: Seq<char>, out: Result<ResolvedVariable, VariableResolveError>) -> Seq<char> {
    match out {
        Ok(rv) => if rv.is_secret {
            "Secret variable "@ + name + ", value hidden, from "@ + rv.provenance.source.label@
        } else if rv.provenance.source.scope == VariableScope::BuiltIn {
            "Dynamic variable "@ + name
        } else {
            "Resolved variable "@ + name + ", from "@ + rv.provenance.source.label@
        },
        Err(_) => "Unresolved variable "@ + name,
    }
}

/// The highlight of a reference whose name is not valid.
pub open spec fn invalid_highlight(r: ReferenceView) -> HighlightView {
    HighlightView {
        name: r.name,
        start: r.start,
        end: r.end,
        state: VariableHighlightState::Invalid,
        label: "Invalid variable reference "@ + r.name,
    }
}

/// The highlight of a valid reference, given what resolving its name gave.
pub open spec fn resolved_highlight(r: ReferenceView, out: Result<ResolvedVariable, VariableResolveError>) -> HighlightView {
    HighlightView {
        name: r.name,
        start: r.start,
        end: r.end,
        state: highlight_state(out),
        label: highlight_label(r.name, out),
    }
}

/// The hover of a name, given what resolving it gave.
pub open spec fn hover_of(name: Seq<char>, out: Result<ResolvedVariable, VariableResolveError>) -> HoverView {
    match out {
        Ok(rv) => HoverView {
            name: name,
            display_value: if rv.is_secret {
                SECRET_MASK@
            } else {
                rv.display_value@
            },
            source_label: rv.provenance.source.label@,
            scope_label: scope_label_spec(rv.provenance.source.scope),
            is_secret: rv.is_secret,
            can_jump_to_definition: rv.provenance.source.scope != VariableScope::BuiltIn,
        },
        Err(_) => HoverView {
            name: name,
            display_value: "Unresolved"@,
            source_label: "No matching definition"@,
            scope_label: "Unresolved"@,
            is_secret: false,
            can_jump_to_definition: false,
        },
    }
}

/// Where "go to definition" leads, given what resolving a name gave:
/// nowhere for a dynamic variable or a name that did not resolve.
pub open spec fn jump_of(out: Result<ResolvedVariable, VariableResolveError>) -> Option<TargetView> {
    match out {
        Ok(rv) => if rv.provenance.source.scope == VariableScope::BuiltIn {
            None
        } else {
            Some(
                TargetView {
                    name: rv.provenance.definition_name@,
                    scope: rv.provenance.source.scope,
                    source_label: rv.provenance.source.label@,
                    resource_id: rv.provenance.source.resource_id,
                },
            )
        },
        Err(_) => None,
    }
}

pub open spec fn covers(r: ReferenceView, offset: int) -> bool {
    r.start <= offset < r.end
}

/// `k` is the first of `refs` that covers `offset`.
pub open spec fn first_cover(refs: Seq<ReferenceView>, offset: int, k: int) -> bool {
    &&& 0 <= k < refs.len()
    &&& covers(refs[k], offset)
    &&& forall|j: int| 0 <= j < k ==> !covers(#[trigger] refs[j], offset)
}

pub open spec fn no_cover(refs: Seq<ReferenceView>, offset: int) -> bool {
    forall|j: int| 0 <= j < refs.len() ==> !covers(#[trigger] refs[j], offset)
}

proof fn lemma_unescaped_step(refs: Seq<ReferenceView>, i: int)
    requires
        0 <= i < refs.len(),
    ensures
        unescaped(refs.take(i + 1)) == if refs[i].escaped {
            unescaped(refs.take(i))
        } else {
            unescaped(refs.take(i)).push(refs[i])
        },
{
    assert(refs.take(i + 1).drop_last() =~= refs.take(i));
}

proof fn lemma_unescaped_prefix(refs: Seq<ReferenceView>, i: int)
    requires
        0 <= i <= refs.len(),
    ensures
        unescaped(refs.take(i)).len() <= unescaped(refs).len(),
        unescaped(refs).take(unescaped(refs.take(i)).len() as int) == unescaped(refs.take(i)),
    decreases refs.len() - i,
{
    if i == refs.len() {
        assert(refs.take(i) =~= refs);
        assert(unescaped(refs).take(unescaped(refs).len() as int) =~= unescaped(refs));
    } else {
        lemma_unescaped_prefix(refs, i + 1);
        lemma_unescaped_step(refs, i);
        let a = unescaped(refs.take(i));
        let b = unescaped(refs.take(i + 1));
        let u = unescaped(refs);
        assert(u.take(a.len() as int) =~= b.take(a.len() as int));
        assert(b.take(a.len() as int) =~= a);
    }
}

proof fn lemma_unescaped_all(refs: Seq<ReferenceView>)
    ensures
        unescaped(refs.take(refs.len() as int)) == unescaped(refs),
{
    assert(refs.take(refs.len() as int) =~= refs);
}


// ---------------------------------------------------------------------------
// Usages
// ---------------------------------------------------------------------------

pub open spec fn usage_of(res: VariableTextResource, r: ReferenceView) -> UsageView {
    UsageView {
        resource_id: res.resource_id,
        label: res.resource_label@,
        field: res.field@,
        start: r.start,
        end: r.end,
    }
}

/// The unescaped references to `name` among `refs`, as usages in `res`.
pub open spec fn ref_usages(res: VariableTextResource, refs: Seq<ReferenceView>, name: Seq<char>) -> Seq<UsageView>
    decreases refs.len(),
{
    if refs.len() == 0 {
        Seq::empty()
    } else {
        let rest = ref_usages(res, refs.drop_last(), name);
        if !refs.last().escaped && refs.last().name == name {
            rest.push(usage_of(res, refs.last()))
        } else {
            rest
        }
    }
}

/// Every usage of `name` in the texts of `resources`, resource by resource.
pub open spec fn all_usages(resources: Seq<VariableTextResource>, name: Seq<char>) -> Seq<UsageView>
    decreases resources.len(),
{
    if resources.len() == 0 {
        Seq::empty()
    } else {
        all_usages(resources.drop_last(), name) + ref_usages(
            resources.last(),
            parse_spec(resources.last().text@).0,
            name,
        )
    }
}

/// Order of usages: by resource label, then field, then position.
pub open spec fn usage_le(a: UsageView, b: UsageView) -> bool {
    ||| !seq_le(b.label, a.label)
    ||| (a.label == b.label && !seq_le(b.field, a.field))
    ||| (a.label == b.label && a.field == b.field && a.start <= b.start)
}

pub open spec fn uviews(s: Seq<VariableUsage>) -> Seq<UsageView> {
    s.map_values(|u: VariableUsage| u@)
}

pub open spec fn usages_sorted(s: Seq<UsageView>) -> bool {
    forall|i: int, j: int| 0 <= i < j < s.len() ==> usage_le(#[trigger] s[i], #[trigger] s[j])
}

proof fn lemma_usage_le_total(a: UsageView, b: UsageView)
    ensures
        usage_le(a, b) || usage_le(b, a),
{
    lemma_seq_le_total(a.label, b.label);
    lemma_seq_le_total(a.field, b.field);
    if seq_le(a.label, b.label) && seq_le(b.label, a.label) {
        lemma_seq_le_antisymmetric(a.label, b.label);
    }
    if seq_le(a.field, b.field) && seq_le(b.field, a.field) {
        lemma_seq_le_antisymmetric(a.field, b.field);
    }
}

proof fn lemma_usage_le_transitive(a: UsageView, b: UsageView, c: UsageView)
    requires
        usage_le(a, b),
        usage_le(b, c),
    ensures
        usage_le(a, c),
{
    lemma_seq_le_total(a.label, b.label);
    lemma_seq_le_total(b.label, c.label);
    lemma_seq_le_total(a.label, c.label);
    lemma_seq_le_total(a.field, b.field);
    lemma_seq_le_total(b.field, c.field);
    lemma_seq_le_total(a.field, c.field);
    if seq_le(a.label, b.label) && seq_le(b.label, a.label) {
        lemma_seq_le_antisymmetric(a.label, b.label);
    }
    if seq_le(b.label, c.label) && seq_le(c.label, b.label) {
        lemma_seq_le_antisymmetric(b.label, c.label);
    }
    if seq_le(a.label, c.label) && seq_le(c.label, a.label) {
        lemma_seq_le_antisymmetric(a.label, c.label);
    }
    if seq_le(a.field, b.field) && seq_le(b.field, a.field) {
        lemma_seq_le_antisymmetric(a.field, b.field);
    }
    if seq_le(b.field, c.field) && seq_le(c.field, b.field) {
        lemma_seq_le_antisymmetric(b.field, c.field);
    }
    if seq_le(a.field, c.field) && seq_le(c.field, a.field) {
        lemma_seq_le_antisymmetric(a.field, c.field);
    }
    if seq_le(a.label, b.label) && seq_le(b.label, c.label) {
        lemma_seq_le_transitive(a.label, b.label, c.label);
    }
    if seq_le(c.label, b.label) && seq_le(b.label, a.label) {
        lemma_seq_le_transitive(c.label, b.label, a.label);
    }
    if seq_le(a.field, b.field) && seq_le(b.field, c.field) {
        lemma_seq_le_transitive(a.field, b.field, c.field);
    }
    if seq_le(c.field, b.field) && seq_le(b.field, a.field) {
        lemma_seq_le_transitive(c.field, b.field, a.field);
    }
}

fn usage_leq(a: &VariableUsage, b: &VariableUsage) -> (r: bool)
    ensures
        r == usage_le(a@, b@),
{
    !str_le(b.resource_label.as_str(), a.resource_label.as_str()) || (str_eq(
        a.resource_label.as_str(),
        b.resource_label.as_str(),
    ) && !str_le(b.field.as_str(), a.field.as_str())) || (str_eq(
        a.resource_label.as_str(),
        b.resource_label.as_str(),
    ) && str_eq(a.field.as_str(), b.field.as_str()) && a.range.start <= b.range.start)
}

/// Sorts usages stably by label, field and position.
fn sort_usages(items: Vec<VariableUsage>) -> (r: Vec<VariableUsage>)
    ensures
        uviews(r@).to_multiset() == uviews(items@).to_multiset(),
        usages_sorted(uviews(r@)),
{
    let mut out: Vec<VariableUsage> = Vec::new();
    let mut i: usize = 0;
    assert(uviews(items@).take(0) =~= Seq::<UsageView>::empty());
    assert(uviews(out@) =~= Seq::<UsageView>::empty());
    while i < items.len()
        invariant
            i <= items.len(),
            uviews(out@).to_multiset() == uviews(items@).take(i as int).to_multiset(),
            usages_sorted(uviews(out@)),
        decreases items.len() - i,
    {
        let x = items[i].copy();
        let mut p: usize = 0;
        while p < out.len() && usage_leq(&out[p], &x)
            invariant
                p <= out.len(),
                forall|k: int| 0 <= k < p ==> usage_le(#[trigger] uviews(out@)[k], x@),
            decreases out.len() - p,
        {
            p = p + 1;
        }
        let ghost before = uviews(out@);
        proof {
            if p < out.len() {
                lemma_usage_le_total(before[p as int], x@);
            }
        }
        out.insert(p, x);
        proof {
            let after = uviews(out@);
            assert(after =~= before.insert(p as int, x@));
            assert(uviews(items@).take(i + 1) =~= uviews(items@).take(i as int).push(x@));
            assert forall|a: int, b: int| 0 <= a < b < after.len() implies usage_le(
                #[trigger] after[a],
                #[trigger] after[b],
            ) by {
                if b == p {
                    assert(after[a] == before[a]);
                } else if a == p {
                    assert(after[b] == before[b - 1]);
                    if b - 1 > p {
                        lemma_usage_le_transitive(x@, before[p as int], before[b - 1]);
                    }
                } else {
                    let a0 = if a < p { a } else { a - 1 };
                    let b0 = if b < p { b } else { b - 1 };
                    assert(after[a] == before[a0]);
                    assert(after[b] == before[b0]);
                }
            }
        }
        i = i + 1;
    }
    assert(uviews(items@).take(i as int) =~= uviews(items@));
    out
}

// ---------------------------------------------------------------------------
// The controller
// ---------------------------------------------------------------------------

/// Annotations of the editors, over one resolver.
pub struct VariableUiController {
    resolver: VariableResolver,
}

impl Default for VariableUiController {
    /// Annotations over an empty resolver.
    fn default() -> (r: Self)
        ensures
            r.wf(),
            forall|scope: VariableScope, name: Seq<char>| r.resolver_view().lookup(scope, name) is None,
            r.resolver_view().max_depth_spec() == 32,
            r.resolver_view().provider_count() == 0,
    {
        VariableUiController { resolver: VariableResolver::new() }
    }
}

impl VariableUiController {
    pub closed spec fn resolver_view(self) -> VariableResolver {
        self.resolver
    }

    pub open spec fn wf(self) -> bool {
        self.resolver_view().wf()
    }

    /// The highlight `h` fits the reference `r`: invalid names are marked
    /// as such, other names by what resolving them gives.
    pub open spec fn highlight_ok(self, r: ReferenceView, h: HighlightView) -> bool {
        if !r.valid {
            h == invalid_highlight(r)
        } else {
            exists|out: Result<ResolvedVariable, VariableResolveError>|
                #[trigger] self.resolver_view().name_ok(r.name, Seq::empty(), 0, out) && h
                    == resolved_highlight(r, out)
        }
    }

    pub open spec fn hover_ok(self, r: ReferenceView, h: HoverView) -> bool {
        exists|out: Result<ResolvedVariable, VariableResolveError>|
            #[trigger] self.resolver_view().name_ok(r.name, Seq::empty(), 0, out) && h == hover_of(
                r.name,
                out,
            )
    }

    pub open spec fn jump_ok(self, r: ReferenceView, t: Option<TargetView>) -> bool {
        exists|out: Result<ResolvedVariable, VariableResolveError>|
            #[trigger] self.resolver_view().name_ok(r.name, Seq::empty(), 0, out) && t == jump_of(out)
    }

    pub fn new(resolver: VariableResolver) -> (r: Self)
        requires
            resolver.wf(),
        ensures
            r.wf(),
            r.resolver_view() == resolver,
    {
        VariableUiController { resolver }
    }

    pub fn resolver(&self) -> (r: &VariableResolver)
        ensures
            *r == self.resolver_view(),
    {
        &self.resolver
    }

    pub fn resolver_mut(&mut self) -> (r: &mut VariableResolver)
        ensures
            *r == old(self).resolver_view(),
            final(self).resolver_view() == *final(r),
    {
        &mut self.resolver
    }

    /// Editor decorations for every unescaped reference of `text`, in order,
    /// and the diagnostics of resolving the whole text.
    pub fn analyze(&self, text: &str) -> (r: VariableEditorAnalysis)
        requires
            self.wf(),
        ensures
            r.highlights@.len() == live_refs(text@).len(),
            forall|i: int|
                0 <= i < r.highlights@.len() ==> self.highlight_ok(
                    live_refs(text@)[i],
                    #[trigger] r.highlights@[i]@,
                ),
            exists|res: ResolutionResult|
                #[trigger] self.resolver_view().template_ok(text@, Seq::empty(), 0, res)
                    && r.diagnostics == res.diagnostics,
    {
        let parsed = parse_template(text);
        let ghost refs = parse_spec(text@).0;
        let mut highlights: Vec<VariableHighlight> = Vec::new();
        let mut i: usize = 0;
        assert(refs.take(0) =~= Seq::<ReferenceView>::empty());
        while i < parsed.references.len()
            invariant
                self.wf(),
                i <= parsed.references.len() == refs.len(),
                ref_views(parsed.references@) == refs,
                highlights@.len() == unescaped(refs.take(i as int)).len(),
                forall|k: int|
                    0 <= k < highlights@.len() ==> self.highlight_ok(
                        unescaped(refs.take(i as int))[k],
                        #[trigger] highlights@[k]@,
                    ),
            decreases parsed.references.len() - i,
        {
            let reference = &parsed.references[i];
            proof {
                lemma_unescaped_step(refs, i as int);
                assert(refs[i as int] == reference@);
            }
            if !reference.escaped {
                let h = self.highlight_for(reference);
                highlights.push(h);
            }
            i = i + 1;
        }
        proof {
            lemma_unescaped_all(refs);
        }
        let resolved = self.resolver.resolve_template(text);
        let ghost g = resolved;
        assert(self.resolver_view().template_ok(text@, Seq::empty(), 0, g));
        VariableEditorAnalysis { highlights, diagnostics: resolved.diagnostics }
    }

    fn highlight_for(&self, reference: &crate::template::VariableReference) -> (h: VariableHighlight)
        requires
            self.wf(),
        ensures
            self.highlight_ok(reference@, h@),
    {
        let range = Range { start: reference.range.start, end: reference.range.end };
        if !reference.valid {
            let mut label = "Invalid variable reference ".to_owned();
            label.push_str(reference.name.as_str());
            return VariableHighlight {
                name: reference.name.clone(),
                range,
                state: VariableHighlightState::Invalid,
                accessibility_label: label,
            };
        }
        let out = self.resolver.resolve(reference.name.as_str());
        let ghost g = out;
        let (state, label) = match &out {
            Ok(resolved) => {
                if resolved.is_secret {
                    let mut l = "Secret variable ".to_owned();
                    l.push_str(reference.name.as_str());
                    l.push_str(", value hidden, from ");
                    l.push_str(resolved.provenance.source.label.as_str());
                    (VariableHighlightState::Secret, l)
                } else if resolved.provenance.source.scope == VariableScope::BuiltIn {
                    let mut l = "Dynamic variable ".to_owned();
                    l.push_str(reference.name.as_str());
                    (VariableHighlightState::Dynamic, l)
                } else {
                    let mut l = "Resolved variable ".to_owned();
                    l.push_str(reference.name.as_str());
                    l.push_str(", from ");
                    l.push_str(resolved.provenance.source.label.as_str());
                    (VariableHighlightState::Resolved, l)
                }
            },
            Err(_) => {
                let mut l = "Unresolved variable ".to_owned();
                l.push_str(reference.name.as_str());
                (VariableHighlightState::Unresolved, l)
            },
        };
        let h = VariableHighlight { name: reference.name.clone(), range, state, accessibility_label: label };
        assert(self.resolver_view().name_ok(reference@.name, Seq::empty(), 0, g));
        assert(h@ == resolved_highlight(reference@, g));
        h
    }

    /// Hover details for the unescaped reference under `offset` (counted in
    /// characters), if any: a secret shows only the mask.
    pub fn hover_at(&self, text: &str, offset: usize) -> (r: Option<VariableHoverInfo>)
        requires
            self.wf(),
        ensures
            match r {
                None => no_cover(live_refs(text@), offset as int),
                Some(h) => exists|k: int|
                    #![trigger live_refs(text@)[k]]
                    first_cover(live_refs(text@), offset as int, k) && self.hover_ok(
                        live_refs(text@)[k],
                        h@,
                    ),
            },
    {
        let parsed = parse_template(text);
        let found = find_cover(&parsed.references, offset);
        match found {
            None => None,
            Some(i) => {
                let reference = &parsed.references[i];
                let out = self.resolver.resolve(reference.name.as_str());
                let ghost g = out;
                let info = match out {
                    Ok(resolved) => {
                        let display_value = if resolved.is_secret {
                            SECRET_MASK.to_owned()
                        } else {
                            resolved.display_value
                        };
                        VariableHoverInfo {
                            name: reference.name.clone(),
                            display_value,
                            source_label: resolved.provenance.source.label,
                            scope_label: scope_label(resolved.provenance.source.scope).to_owned(),
                            is_secret: resolved.is_secret,
                            can_jump_to_definition: resolved.provenance.source.scope != VariableScope::BuiltIn,
                        }
                    },
                    Err(_) => VariableHoverInfo {
                        name: reference.name.clone(),
                        display_value: "Unresolved".to_owned(),
                        source_label: "No matching definition".to_owned(),
                        scope_label: "Unresolved".to_owned(),
                        is_secret: false,
                        can_jump_to_definition: false,
                    },
                };
                proof {
                    let refs = parse_spec(text@).0;
                    let k = unescaped(refs.take(i as int)).len() as int;
                    assert(live_refs(text@)[k] == reference@);
                    assert(self.resolver_view().name_ok(reference@.name, Seq::empty(), 0, g));
                    assert(info@ == hover_of(reference@.name, g));
                    assert(self.hover_ok(live_refs(text@)[k], info@));
                }
                Some(info)
            },
        }
    }

    /// The definition behind the unescaped reference under `offset`, if the
    /// reference resolves to a definition that is not a dynamic variable.
    pub fn jump_to_variable(&self, text: &str, offset: usize) -> (r: Option<VariableDefinitionTarget>)
        requires
            self.wf(),
        ensures
            r is Some ==> exists|k: int|
                #![trigger live_refs(text@)[k]]
                first_cover(live_refs(text@), offset as int, k) && self.jump_ok(
                    live_refs(text@)[k],
                    Some(r->0@),
                ),
            r is None ==> no_cover(live_refs(text@), offset as int) || exists|k: int|
                #![trigger live_refs(text@)[k]]
                first_cover(live_refs(text@), offset as int, k) && self.jump_ok(
                    live_refs(text@)[k],
                    None,
                ),
    {
        let parsed = parse_template(text);
        let found = find_cover(&parsed.references, offset);
        match found {
            None => None,
            Some(i) => {
                let reference = &parsed.references[i];
                let out = self.resolver.resolve(reference.name.as_str());
                let ghost g = out;
                let target = match out {
                    Ok(resolved) => if resolved.provenance.source.scope == VariableScope::BuiltIn {
                        None
                    } else {
                        Some(
                            VariableDefinitionTarget {
                                name: resolved.provenance.definition_name,
                                scope: resolved.provenance.source.scope,
                                source_label: resolved.provenance.source.label,
                                resource_id: resolved.provenance.source.resource_id,
                            },
                        )
                    },
                    Err(_) => None,
                };
                proof {
                    let refs = parse_spec(text@).0;
                    let k = unescaped(refs.take(i as int)).len() as int;
                    assert(live_refs(text@)[k] == reference@);
                    assert(self.resolver_view().name_ok(reference@.name, Seq::empty(), 0, g));
                    if target is Some {
                        assert(Some(target->0@) == jump_of(g));
                        assert(self.jump_ok(live_refs(text@)[k], Some(target->0@)));
                    } else {
                        assert(jump_of(g) is None);
                        assert(self.jump_ok(live_refs(text@)[k], None));
                    }
                }
                target
            },
        }
    }

    /// Every unescaped reference to `name` in the given texts, sorted by
    /// resource label, field and position.
    pub fn find_usages(&self, name: &str, resources: &[VariableTextResource]) -> (r: Vec<VariableUsage>)
        ensures
            uviews(r@).to_multiset() == all_usages(resources@, name@).to_multiset(),
            usages_sorted(uviews(r@)),
    {
        let mut found: Vec<VariableUsage> = Vec::new();
        let mut i: usize = 0;
        assert(resources@.take(0) =~= Seq::<VariableTextResource>::empty());
        assert(uviews(found@) =~= Seq::<UsageView>::empty());
        while i < resources.len()
            invariant
                i <= resources.len(),
                uviews(found@) == all_usages(resources@.take(i as int), name@),
            decreases resources.len() - i,
        {
            let res = &resources[i];
            let parsed = parse_template(res.text.as_str());
            let ghost refs = parse_spec(res.text@).0;
            let ghost base = uviews(found@);
            let mut j: usize = 0;
            assert(refs.take(0) =~= Seq::<ReferenceView>::empty());
            assert(base + ref_usages(*res, refs.take(0), name@) =~= base);
            while j < parsed.references.len()
                invariant
                    j <= parsed.references.len() == refs.len(),
                    ref_views(parsed.references@) == refs,
                    uviews(found@) == base + ref_usages(*res, refs.take(j as int), name@),
                decreases parsed.references.len() - j,
            {
                let reference = &parsed.references[j];
                proof {
                    assert(refs[j as int] == reference@);
                    assert(refs.take(j + 1).drop_last() =~= refs.take(j as int));
                }
                if !reference.escaped && str_eq(reference.name.as_str(), name) {
                    let u = VariableUsage {
                        resource_id: res.resource_id,
                        resource_label: res.resource_label.clone(),
                        field: res.field.clone(),
                        range: Range { start: reference.range.start, end: reference.range.end },
                    };
                    let ghost prev = uviews(found@);
                    found.push(u);
                    proof {
                        assert(uviews(found@) =~= prev.push(u@));
                        assert(u@ == usage_of(*res, refs[j as int]));
                    }
                }
                j = j + 1;
            }
            proof {
                assert(refs.take(refs.len() as int) =~= refs);
                assert(resources@.take(i + 1).drop_last() =~= resources@.take(i as int));
                assert(resources@.take(i + 1).last() == *res);
            }
            i = i + 1;
        }
        assert(resources@.take(i as int) =~= resources@);
        sort_usages(found)
    }

    /// Defines a variable that a reference names but nothing defines yet.
    /// A name that is not valid, or that already resolves, is refused and
    /// nothing changes.
    pub fn create_from_unresolved(
        &mut self,
        name: &str,
        value: &str,
        source: VariableSource,
        is_secret: bool,
    ) -> (r: Result<(), VariableUiError>)
        requires
            old(self).wf(),
        ensures
            final(self).wf(),
            match r {
                Err(VariableUiError::InvalidName(n)) => n@ == name@ && !valid_name(name@)
                    && *final(self) == *old(self),
                Err(VariableUiError::AlreadyResolved(n)) => {
                    &&& n@ == name@
                    &&& valid_name(name@)
                    &&& exists|rv: ResolvedVariable|
                        #[trigger] old(self).resolver_view().name_ok(name@, Seq::empty(), 0, Ok(rv))
                    &&& *final(self) == *old(self)
                },
                Ok(()) => {
                    &&& valid_name(name@)
                    &&& exists|e: VariableResolveError|
                        #[trigger] old(self).resolver_view().name_ok(name@, Seq::empty(), 0, Err(e))
                    &&& final(self).resolver_view().max_depth_spec() == old(
                        self,
                    ).resolver_view().max_depth_spec()
                    &&& final(self).resolver_view().provider_count() == old(
                        self,
                    ).resolver_view().provider_count()
                    &&& forall|s: VariableScope, n: Seq<char>|
                        #![trigger final(self).resolver_view().lookup(s, n)]
                        final(self).resolver_view().lookup(s, n) == if s == source.scope && n
                            == name@ {
                            Some(
                                DefinitionView {
                                    name: name@,
                                    value: value@,
                                    is_secret: is_secret,
                                    enabled: true,
                                    source: source@,
                                },
                            )
                        } else {
                            old(self).resolver_view().lookup(s, n)
                        }
                },
            },
    {
        if !is_valid_variable_name(name) {
            return Err(VariableUiError::InvalidName(name.to_owned()));
        }
        match self.resolver.resolve(name) {
            Ok(rv) => {
                let ghost g = rv;
                assert(self.resolver_view().name_ok(name@, Seq::empty(), 0, Ok(g)));
                return Err(VariableUiError::AlreadyResolved(name.to_owned()));
            },
            Err(e) => {
                let ghost g = e;
                assert(self.resolver_view().name_ok(name@, Seq::empty(), 0, Err(g)));
            },
        }
        let scope = source.scope;
        let mut definition = VariableDefinition::new(name, value, source);
        definition.is_secret = is_secret;
        self.resolver.insert(scope, definition);
        Ok(())
    }
}

/// The index of the first unescaped reference covering `offset`.
fn find_cover(references: &Vec<crate::template::VariableReference>, offset: usize) -> (r: Option<usize>)
    ensures
        match r {
            None => no_cover(unescaped(ref_views(references@)), offset as int),
            Some(i) => {
                &&& i < references@.len()
                &&& unescaped(ref_views(references@).take(i as int)).len() < unescaped(
                    ref_views(references@),
                ).len()
                &&& unescaped(ref_views(references@))[unescaped(
                    ref_views(references@).take(i as int),
                ).len() as int] == references@[i as int]@
                &&& first_cover(
                    unescaped(ref_views(references@)),
                    offset as int,
                    unescaped(ref_views(references@).take(i as int)).len() as int,
                )
            },
        },
{
    let ghost refs = ref_views(references@);
    let mut i: usize = 0;
    assert(refs.take(0) =~= Seq::<ReferenceView>::empty());
    while i < references.len()
        invariant
            i <= references.len() == refs.len(),
            refs == ref_views(references@),
            no_cover(unescaped(refs.take(i as int)), offset as int),
        decreases references.len() - i,
    {
        let reference = &references[i];
        proof {
            lemma_unescaped_step(refs, i as int);
            assert(refs[i as int] == reference@);
        }
        if !reference.escaped && reference.range.start <= offset && offset < reference.range.end {
            proof {
                lemma_unescaped_prefix(refs, i as int + 1);
                let u = unescaped(refs);
                let a = unescaped(refs.take(i as int));
                let b = unescaped(refs.take(i as int + 1));
                assert(b == a.push(reference@));
                assert(u.take(b.len() as int) == b);
                assert(u[a.len() as int] == b[a.len() as int]);
                assert forall|j: int| 0 <= j < a.len() implies !covers(#[trigger] u[j], offset as int) by {
                    assert(u[j] == b[j]);
                    assert(b[j] == a[j]);
                }
            }
            return Some(i);
        }
        i = i + 1;
    }
    proof {
        lemma_unescaped_all(refs);
    }
    None
}

} // verus!
