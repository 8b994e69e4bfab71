//! Multi-pane workbench: split panes, tab lifecycle with dirty-close
//! protection, last-in-first-out reopening of closed tabs, and the records
//! that persist the open tabs.
use vstd::prelude::*;
use crate::domain::{
    random_uuid_bits, unix_timestamp, uuid_string, uuid_text, RequestDocument, RequestDocumentView,
    ResourceId,
};
use crate::http::{HttpResponse, HttpResponseView};
use crate::storage::TabStateRecord;
use crate::text::{decimal, push_decimal, str_eq};
use crate::ui::SplitOrientation;

verus! {

pub const DEFAULT_PANE_ID: &'static str = "pane-main";

pub const MAX_CLOSED_TABS_HISTORY: usize = 50;

/// Why a tab or pane operation was refused.
#[derive(Debug)]
pub enum CloseTabError {
    UnsavedChanges(ResourceId),
    PaneNotFound(String),
    IndexOutOfBounds(usize),
}

impl CloseTabError {
    /// The text of the error.
    pub fn message(&self) -> (m: String)
        ensures
            m@ == match self {
                CloseTabError::UnsavedChanges(id) => "Tab has unsaved changes: "@ + uuid_text(id.0),
                CloseTabError::PaneNotFound(p) => "Pane not found: "@ + p@,
                CloseTabError::IndexOutOfBounds(n) => "Tab index out of bounds: "@ + decimal(*n as nat),
            },
    {
        match self {
            CloseTabError::UnsavedChanges(id) => {
                let mut m = "Tab has unsaved changes: ".to_owned();
                let text = uuid_string(id.0);
                m.push_str(text.as_str());
                m
            },
            CloseTabError::PaneNotFound(p) => {
                let mut m = "Pane not found: ".to_owned();
                m.push_str(p.as_str());
                m
            },
            CloseTabError::IndexOutOfBounds(n) => {
                let mut m = "Tab index out of bounds: ".to_owned();
                push_decimal(&mut m, *n as u64);
                m
            },
        }
    }
}

// ---------------------------------------------------------------------------
// Tabs
// ---------------------------------------------------------------------------

/// State of an individual request tab in the workbench.
#[derive(Debug)]
pub struct RequestTabState {
    pub tab_id: ResourceId,
    pub request: RequestDocument,
    pub is_dirty: bool,
    pub is_pinned: bool,
    pub is_executing: bool,
    pub latest_response: Option<HttpResponse>,
}

pub ghost struct TabView {
    pub tab_id: ResourceId,
    pub request: RequestDocumentView,
    pub is_dirty: bool,
    pub is_pinned: bool,
    pub is_executing: bool,
    pub latest_response: Option<HttpResponseView>,
}

impl View for RequestTabState {
    type V = TabView;

    open spec fn view(&self) -> TabView {
        TabView {
            tab_id: self.tab_id,
            request: self.request@,
            is_dirty: self.is_dirty,
            is_pinned: self.is_pinned,
            is_executing: self.is_executing,
            latest_response: match self.latest_response {
                Some(r) => Some(r@),
                None => None,
            },
        }
    }
}

/// A freshly opened tab showing `request`: clean, unpinned, idle and
/// without a response.
pub open spec fn fresh_tab(t: RequestTabState, request: RequestDocumentView) -> bool {
    &&& t@.request == request
    &&& !t.is_dirty
    &&& !t.is_pinned
    &&& !t.is_executing
    &&& t.latest_response is None
}

impl RequestTabState {
    /// A tab with a fresh identifier.
    pub fn new(request: RequestDocument) -> (r: Self)
        ensures
            fresh_tab(r, request@),
    {
        RequestTabState {
            tab_id: ResourceId::new(),
            request,
            is_dirty: false,
            is_pinned: false,
            is_executing: false,
            latest_response: None,
        }
    }

    pub fn mark_dirty(&mut self)
        ensures
            *final(self) == (RequestTabState { is_dirty: true, ..*old(self) }),
    {
        self.is_dirty = true;
    }

    pub fn mark_clean(&mut self)
        ensures
            *final(self) == (RequestTabState { is_dirty: false, ..*old(self) }),
    {
        self.is_dirty = false;
    }

    pub fn copy(&self) -> (r: Self)
        ensures
            r@ == self@,
    {
        RequestTabState {
            tab_id: self.tab_id,
            request: self.request.copy(),
            is_dirty: self.is_dirty,
            is_pinned: self.is_pinned,
            is_executing: self.is_executing,
            latest_response: match &self.latest_response {
                Some(r) => Some(r.copy()),
                None => None,
            },
        }
    }
}

/// History entry for a closed tab, to reopen it later. `closed_at` is in
/// seconds since the Unix epoch.
#[derive(Debug)]
pub struct ClosedTabInfo {
    pub pane_id: String,
    pub tab_state: RequestTabState,
    pub closed_at: i64,
}

// ---------------------------------------------------------------------------
// Split tree
// ---------------------------------------------------------------------------

/// Binary split tree of nested horizontal and vertical panes. `ratio` is the
/// share of the first side, held as the bits of an `f32` between 0 and 1
/// (`f32::to_bits`); it is carried, never computed with.
#[derive(Debug)]
pub enum SplitTree {
    Leaf { pane_id: String },
    Split { orientation: SplitOrientation, ratio: u32, first: Box<SplitTree>, second: Box<SplitTree> },
}

pub ghost enum TreeView {
    Leaf(Seq<char>),
    Split(SplitOrientation, u32, Box<TreeView>, Box<TreeView>),
}

pub open spec fn tree_view(t: SplitTree) -> TreeView
    decreases t,
{
    match t {
        SplitTree::Leaf { pane_id } => TreeView::Leaf(pane_id@),
        SplitTree::Split { orientation, ratio, first, second } => TreeView::Split(
            orientation,
            ratio,
            Box::new(tree_view(*first)),
            Box::new(tree_view(*second)),
        ),
    }
}

/// Every leaf `target` replaced by a split of it (first) and `new_id`.
pub open spec fn split_at(
    t: TreeView,
    target: Seq<char>,
    new_id: Seq<char>,
    orientation: SplitOrientation,
    ratio: u32,
) -> TreeView
    decreases t,
{
    match t {
        TreeView::Leaf(id) => if id == target {
            TreeView::Split(
                orientation,
                ratio,
                Box::new(TreeView::Leaf(id)),
                Box::new(TreeView::Leaf(new_id)),
            )
        } else {
            TreeView::Leaf(id)
        },
        TreeView::Split(o, r, a, b) => TreeView::Split(
            o,
            r,
            Box::new(split_at(*a, target, new_id, orientation, ratio)),
            Box::new(split_at(*b, target, new_id, orientation, ratio)),
        ),
    }
}

/// The tree without the leaf `removed`: a split with that leaf on one side
/// becomes its other side.
pub open spec fn pruned(t: TreeView, removed: Seq<char>) -> TreeView
    decreases t,
{
    match t {
        TreeView::Leaf(id) => TreeView::Leaf(id),
        TreeView::Split(o, r, a, b) => if (*a matches TreeView::Leaf(x) && x == removed) {
            *b
        } else if (*b matches TreeView::Leaf(y) && y == removed) {
            *a
        } else {
            TreeView::Split(o, r, Box::new(pruned(*a, removed)), Box::new(pruned(*b, removed)))
        },
    }
}

impl SplitTree {
    fn is_leaf_named(&self, id: &str) -> (r: bool)
        ensures
            r == (tree_view(*self) matches TreeView::Leaf(x) && x == id@),
    {
        match self {
            SplitTree::Leaf { pane_id } => str_eq(pane_id.as_str(), id),
            SplitTree::Split { .. } => false,
        }
    }
}

fn insert_split(
    tree: SplitTree,
    target_id: &str,
    new_id: &str,
    orientation: SplitOrientation,
    ratio: u32,
) -> (r: SplitTree)
    ensures
        tree_view(r) == split_at(tree_view(tree), target_id@, new_id@, orientation, ratio),
    decreases tree,
{
    match tree {
        SplitTree::Leaf { pane_id } => {
            if str_eq(pane_id.as_str(), target_id) {
                let a = SplitTree::Leaf { pane_id };
                let b = SplitTree::Leaf { pane_id: new_id.to_owned() };
                assert(tree_view(a) == TreeView::Leaf(target_id@));
                assert(tree_view(b) == TreeView::Leaf(new_id@));
                let r = SplitTree::Split { orientation, ratio, first: Box::new(a), second: Box::new(b) };
                assert(tree_view(r) == TreeView::Split(
                    orientation,
                    ratio,
                    Box::new(tree_view(a)),
                    Box::new(tree_view(b)),
                ));
                r
            } else {
                SplitTree::Leaf { pane_id }
            }
        },
        SplitTree::Split { orientation: o, ratio: r, first, second } => {
            let a = insert_split(*first, target_id, new_id, orientation, ratio);
            let b = insert_split(*second, target_id, new_id, orientation, ratio);
            SplitTree::Split { orientation: o, ratio: r, first: Box::new(a), second: Box::new(b) }
        },
    }
}

fn prune_split_tree(tree: SplitTree, removed_id: &str) -> (r: SplitTree)
    ensures
        tree_view(r) == pruned(tree_view(tree), removed_id@),
    decreases tree,
{
    match tree {
        SplitTree::Leaf { pane_id } => SplitTree::Leaf { pane_id },
        SplitTree::Split { orientation, ratio, first, second } => {
            if first.is_leaf_named(removed_id) {
                return *second;
            }
            if second.is_leaf_named(removed_id) {
                return *first;
            }
            let a = prune_split_tree(*first, removed_id);
            let b = prune_split_tree(*second, removed_id);
            SplitTree::Split { orientation, ratio, first: Box::new(a), second: Box::new(b) }
        },
    }
}

// ---------------------------------------------------------------------------
// Panes
// ---------------------------------------------------------------------------

/// An editor pane: its tabs and the index of the active one.
#[derive(Debug)]
pub struct WorkbenchPane {
    pub id: String,
    pub tabs: Vec<RequestTabState>,
    pub active_tab_index: usize,
}

impl WorkbenchPane {
    pub fn new(id: &str) -> (r: Self)
        ensures
            r.id@ == id@,
            r.tabs@.len() == 0,
            r.active_tab_index == 0,
    {
        WorkbenchPane { id: id.to_owned(), tabs: Vec::new(), active_tab_index: 0 }
    }

    pub fn active_tab(&self) -> (r: Option<&RequestTabState>)
        ensures
            match r {
                Some(t) => self.active_tab_index < self.tabs@.len() && *t
                    == self.tabs@[self.active_tab_index as int],
                None => self.active_tab_index >= self.tabs@.len(),
            },
    {
        if self.active_tab_index < self.tabs.len() {
            Some(&self.tabs[self.active_tab_index])
        } else {
            None
        }
    }

    pub fn active_tab_mut(&mut self) -> (r: Option<&mut RequestTabState>)
        ensures
            match r {
                Some(t) => {
                    &&& old(self).active_tab_index < old(self).tabs@.len()
                    &&& *t == old(self).tabs@[old(self).active_tab_index as int]
                    &&& final(self).tabs@ == old(self).tabs@.update(
                        old(self).active_tab_index as int,
                        *final(t),
                    )
                    &&& final(self).id == old(self).id
                    &&& final(self).active_tab_index == old(self).active_tab_index
                },
                None => old(self).active_tab_index >= old(self).tabs@.len() && *final(self) == *old(
                    self,
                ),
            },
    {
        if self.active_tab_index < self.tabs.len() {
            let i = self.active_tab_index;
            Some(&mut self.tabs[i])
        } else {
            None
        }
    }
}

/// Pane `i` of `panes` has the id `id`.
pub open spec fn pane_at(panes: Seq<WorkbenchPane>, i: int, id: Seq<char>) -> bool {
    0 <= i < panes.len() && panes[i].id@ == id
}

pub open spec fn has_pane(panes: Seq<WorkbenchPane>, id: Seq<char>) -> bool {
    exists|i: int| #[trigger] pane_at(panes, i, id)
}

/// `after` is `before` with pane `i` given these tabs and active index.
pub open spec fn pane_changed(
    before: Seq<WorkbenchPane>,
    after: Seq<WorkbenchPane>,
    i: int,
    tabs: Seq<RequestTabState>,
    active: int,
) -> bool {
    &&& 0 <= i < before.len()
    &&& after.len() == before.len()
    &&& after[i].id == before[i].id
    &&& after[i].tabs@ == tabs
    &&& after[i].active_tab_index == active
    &&& forall|k: int| 0 <= k < before.len() && k != i ==> after[k] == before[k]
}

/// The active index after removing tab `removed` from a pane that is left
/// with `len` tabs: an earlier tab shifts it left, and it stays in range.
pub open spec fn active_after_close(active: int, removed: int, len: int) -> int {
    if removed < active {
        active - 1
    } else if active >= len && len > 0 {
        len - 1
    } else {
        active
    }
}

/// `after` is `before` with an empty pane `id` put in: replacing the pane
/// that has that id, or appended.
pub open spec fn empty_pane_put(before: Seq<WorkbenchPane>, after: Seq<WorkbenchPane>, id: Seq<char>) -> bool {
    if has_pane(before, id) {
        exists|i: int| #[trigger] pane_at(before, i, id) && pane_changed(before, after, i, Seq::empty(), 0)
    } else {
        &&& after.len() == before.len() + 1
        &&& after.drop_last() == before
        &&& after.last().id@ == id
        &&& after.last().tabs@.len() == 0
        &&& after.last().active_tab_index == 0
    }
}

/// `after` is `before` without pane `i`, whose tabs went, in order, to the
/// end of the first remaining pane.
pub open spec fn pane_closed(before: Seq<WorkbenchPane>, after: Seq<WorkbenchPane>, i: int) -> bool {
    let rest = before.remove(i);
    &&& rest.len() > 0
    &&& pane_changed(rest, after, 0, rest[0].tabs@ + before[i].tabs@, rest[0].active_tab_index as int)
}

/// The history after recording that `tab` was closed in `pane_id`; with
/// `capped`, the oldest entry goes once the history is over its limit.
pub open spec fn history_pushed(
    before: Seq<ClosedTabInfo>,
    after: Seq<ClosedTabInfo>,
    pane_id: Seq<char>,
    tab: TabView,
    capped: bool,
) -> bool {
    &&& if capped && before.len() + 1 > MAX_CLOSED_TABS_HISTORY {
        &&& after.len() == before.len()
        &&& forall|k: int| 0 <= k < before.len() - 1 ==> after[k] == before[k + 1]
    } else {
        &&& after.len() == before.len() + 1
        &&& forall|k: int| 0 <= k < before.len() ==> after[k] == before[k]
    }
    &&& after.last().pane_id@ == pane_id
    &&& after.last().tab_state@ == tab
}

/// `k` is the first tab of `tabs` showing the request `id`.
pub open spec fn first_tab_for(tabs: Seq<RequestTabState>, id: ResourceId, k: int) -> bool {
    &&& 0 <= k < tabs.len()
    &&& tabs[k].request.id == id
    &&& forall|j: int| 0 <= j < k ==> (#[trigger] tabs[j]).request.id != id
}

pub open spec fn shows_request(tabs: Seq<RequestTabState>, id: ResourceId) -> bool {
    exists|k: int| 0 <= k < tabs.len() && (#[trigger] tabs[k]).request.id == id
}

/// Pane `pane_id` exists and has a tab at `idx`.
pub open spec fn has_tab(panes: Seq<WorkbenchPane>, pane_id: Seq<char>, idx: int) -> bool {
    exists|i: int| #[trigger] pane_at(panes, i, pane_id) && 0 <= idx < panes[i].tabs@.len()
}

/// The view of a persisted tab record.
pub ghost struct RecordView {
    pub id: Seq<char>,
    pub workspace_id: Seq<char>,
    pub resource_id: ResourceId,
    pub tab_order: i32,
    pub is_pinned: bool,
    pub pane_id: Option<Seq<char>>,
}

pub open spec fn record_view(r: TabStateRecord) -> RecordView {
    RecordView {
        id: r.id@,
        workspace_id: r.workspace_id@,
        resource_id: r.resource_id,
        tab_order: r.tab_order,
        is_pinned: r.is_pinned,
        pane_id: match r.pane_id {
            Some(p) => Some(p@),
            None => None,
        },
    }
}

pub open spec fn record_views(s: Seq<TabStateRecord>) -> Seq<RecordView> {
    s.map_values(|r: TabStateRecord| record_view(r))
}

/// The record of tab `k` of pane `p`: its position is its order.
pub open spec fn record_of(p: WorkbenchPane, workspace_id: Seq<char>, k: int) -> RecordView {
    RecordView {
        id: uuid_text(p.tabs@[k].tab_id.0),
        workspace_id: workspace_id,
        resource_id: p.tabs@[k].request.id,
        tab_order: k as i32,
        is_pinned: p.tabs@[k].is_pinned,
        pane_id: Some(p.id@),
    }
}

/// Records of the first `n` tabs of a pane.
pub open spec fn pane_records(p: WorkbenchPane, workspace_id: Seq<char>, n: int) -> Seq<RecordView>
    decreases n,
{
    if n <= 0 {
        Seq::empty()
    } else {
        pane_records(p, workspace_id, n - 1).push(record_of(p, workspace_id, n - 1))
    }
}

/// Records of every tab, pane by pane.
pub open spec fn all_records(panes: Seq<WorkbenchPane>, workspace_id: Seq<char>) -> Seq<RecordView>
    decreases panes.len(),
{
    if panes.len() == 0 {
        Seq::empty()
    } else {
        all_records(panes.drop_last(), workspace_id) + pane_records(
            panes.last(),
            workspace_id,
            panes.last().tabs@.len() as int,
        )
    }
}

/// `k` is the first of `requests` with the identifier `id`.
pub open spec fn first_request(requests: Seq<RequestDocument>, id: ResourceId, k: int) -> bool {
    &&& 0 <= k < requests.len()
    &&& requests[k].id == id
    &&& forall|j: int| 0 <= j < k ==> (#[trigger] requests[j]).id != id
}

pub open spec fn record_target(rec: TabStateRecord) -> Seq<char> {
    match rec.pane_id {
        Some(p) => p@,
        None => DEFAULT_PANE_ID@,
    }
}

/// A tab restored from a record: the request, pinned as recorded, clean.
pub open spec fn restored_tab(t: RequestTabState, request: RequestDocument, pinned: bool) -> bool {
    &&& t@.request == request@
    &&& t.is_pinned == pinned
    &&& !t.is_dirty
    &&& !t.is_executing
    &&& t.latest_response is None
}

/// One record restored: unless no request has its identifier, a tab for
/// the first such request goes to the end of the record's pane (the main
/// pane when it names none), which is created if missing.
pub open spec fn restore_step(
    before: Seq<WorkbenchPane>,
    after: Seq<WorkbenchPane>,
    rec: TabStateRecord,
    requests: Seq<RequestDocument>,
) -> bool {
    if !(exists|k: int| 0 <= k < requests.len() && (#[trigger] requests[k]).id == rec.resource_id) {
        after == before
    } else {
        exists|k: int|
            #[trigger] first_request(requests, rec.resource_id, k) && if has_pane(
                before,
                record_target(rec),
            ) {
                exists|i: int|
                    #[trigger] pane_at(before, i, record_target(rec)) && pane_changed(
                        before,
                        after,
                        i,
                        after[i].tabs@,
                        before[i].active_tab_index as int,
                    ) && after[i].tabs@.len() == before[i].tabs@.len() + 1 && after[i].tabs@.drop_last()
                        == before[i].tabs@ && restored_tab(
                        after[i].tabs@.last(),
                        requests[k],
                        rec.is_pinned,
                    )
            } else {
                &&& after.len() == before.len() + 1
                &&& after.drop_last() == before
                &&& after.last().id@ == record_target(rec)
                &&& after.last().active_tab_index == 0
                &&& after.last().tabs@.len() == 1
                &&& restored_tab(after.last().tabs@[0], requests[k], rec.is_pinned)
            }
    }
}

/// `after` is `before` with tab `idx` of pane `pane_id` closed and
/// recorded for reopening (the history trimmed to its limit with `capped`);
/// `t` is the closed tab.
pub open spec fn tab_closed(
    before: WorkbenchState,
    after: WorkbenchState,
    pane_id: Seq<char>,
    idx: int,
    t: RequestTabState,
    capped: bool,
) -> bool {
    exists|i: int|
        #[trigger] pane_at(before.panes@, i, pane_id) && {
            let pane = before.panes@[i];
            &&& 0 <= idx < pane.tabs@.len()
            &&& t == pane.tabs@[idx]
            &&& pane_changed(
                before.panes@,
                after.panes@,
                i,
                pane.tabs@.remove(idx),
                active_after_close(pane.active_tab_index as int, idx, pane.tabs@.len() - 1),
            )
            &&& history_pushed(before.closed_tabs@, after.closed_tabs@, pane_id, t@, capped)
            &&& after.active_pane_id == before.active_pane_id
            &&& after.split_tree == before.split_tree
            &&& after.autosave_enabled == before.autosave_enabled
        }
}

/// `after` is `before` with its most recently closed tab `t` taken from
/// the history and appended, active, to the pane where it reopens.
pub open spec fn tab_reopened(before: WorkbenchState, after: WorkbenchState, t: RequestTabState) -> bool {
    let c = before.closed_tabs@.last();
    &&& before.closed_tabs@.len() > 0
    &&& after.closed_tabs@ == before.closed_tabs@.drop_last()
    &&& t == c.tab_state
    &&& exists|i: int|
        #[trigger] pane_at(before.panes@, i, before.reopen_target()) && pane_changed(
            before.panes@,
            after.panes@,
            i,
            before.panes@[i].tabs@.push(c.tab_state),
            before.panes@[i].tabs@.len() as int,
        )
    &&& after.active_pane_id == before.active_pane_id
    &&& after.split_tree == before.split_tree
    &&& after.autosave_enabled == before.autosave_enabled
}

/// Whether `id` is a leaf of the tree.
pub open spec fn has_leaf(t: TreeView, id: Seq<char>) -> bool
    decreases t,
{
    match t {
        TreeView::Leaf(x) => x == id,
        TreeView::Split(_, _, a, b) => has_leaf(*a, id) || has_leaf(*b, id),
    }
}

/// Reopening right after closing a tab gives that tab back, at the end of
/// the pane it was closed in, active; when the history was below its limit,
/// the history is as it was before the close.
pub proof fn law_reopen_restores_closed_tab(
    s0: WorkbenchState,
    s1: WorkbenchState,
    s2: WorkbenchState,
    pane_id: Seq<char>,
    idx: int,
    t: RequestTabState,
    capped: bool,
    t2: RequestTabState,
)
    requires
        s0.wf(),
        tab_closed(s0, s1, pane_id, idx, t, capped),
        tab_reopened(s1, s2, t2),
    ensures
        t2@ == t@,
        exists|i: int|
            #[trigger] pane_at(s2.panes@, i, pane_id) && s2.panes@[i].tabs@ == s0.panes@[i].tabs@.remove(
                idx,
            ).push(t2) && s2.panes@[i].active_tab_index == s2.panes@[i].tabs@.len() - 1,
        s0.closed_tabs@.len() < MAX_CLOSED_TABS_HISTORY ==> s2.closed_tabs@ == s0.closed_tabs@,
{
    let i = choose|i: int|
        #[trigger] pane_at(s0.panes@, i, pane_id) && {
            let pane = s0.panes@[i];
            &&& 0 <= idx < pane.tabs@.len()
            &&& t == pane.tabs@[idx]
            &&& pane_changed(
                s0.panes@,
                s1.panes@,
                i,
                pane.tabs@.remove(idx),
                active_after_close(pane.active_tab_index as int, idx, pane.tabs@.len() - 1),
            )
            &&& history_pushed(s0.closed_tabs@, s1.closed_tabs@, pane_id, t@, capped)
            &&& s1.active_pane_id == s0.active_pane_id
            &&& s1.split_tree == s0.split_tree
            &&& s1.autosave_enabled == s0.autosave_enabled
        };
    assert(s1.panes@[i].id == s0.panes@[i].id);
    assert(pane_at(s1.panes@, i, pane_id));
    assert(has_pane(s1.panes@, pane_id));
    assert(s1.closed_tabs@.last().pane_id@ == pane_id);
    assert(s1.reopen_target() == pane_id);
    let j = choose|j: int|
        #[trigger] pane_at(s1.panes@, j, s1.reopen_target()) && pane_changed(
            s1.panes@,
            s2.panes@,
            j,
            s1.panes@[j].tabs@.push(s1.closed_tabs@.last().tab_state),
            s1.panes@[j].tabs@.len() as int,
        );
    if j != i {
        assert(s1.panes@[j] == s0.panes@[j]);
        assert(s0.panes@[j].id@ != s0.panes@[i].id@);
    }
    assert(j == i);
    assert(s2.panes@[i].id == s0.panes@[i].id);
    assert(pane_at(s2.panes@, i, pane_id));
    if s0.closed_tabs@.len() < MAX_CLOSED_TABS_HISTORY {
        assert(s2.closed_tabs@ =~= s0.closed_tabs@);
    }
}

/// Closing the pane that a split has just created gives back the layout
/// from before the split, provided the new pane was not in it.
pub proof fn law_split_then_close_restores_layout(
    t: TreeView,
    target: Seq<char>,
    new_id: Seq<char>,
    orientation: SplitOrientation,
    ratio: u32,
)
    requires
        !has_leaf(t, new_id),
    ensures
        pruned(split_at(t, target, new_id, orientation, ratio), new_id) == t,
    decreases t,
{
    match t {
        TreeView::Leaf(x) => {},
        TreeView::Split(o, r, a, b) => {
            law_split_then_close_restores_layout(*a, target, new_id, orientation, ratio);
            law_split_then_close_restores_layout(*b, target, new_id, orientation, ratio);
            let a2 = split_at(*a, target, new_id, orientation, ratio);
            let b2 = split_at(*b, target, new_id, orientation, ratio);
            assert(!(a2 matches TreeView::Leaf(x) && x == new_id));
            assert(!(b2 matches TreeView::Leaf(y) && y == new_id));
        },
    }
}

/// Comprehensive workbench state: panes, split layout and closed tabs.
/// Pane ids are unique, so the panes serve as a map keyed by id.
#[derive(Debug)]
pub struct WorkbenchState {
    pub panes: Vec<WorkbenchPane>,
    pub active_pane_id: String,
    pub split_tree: SplitTree,
    pub closed_tabs: Vec<ClosedTabInfo>,
    pub autosave_enabled: bool,
}

impl WorkbenchState {
    /// Pane ids are unique and the active pane is one of the panes.
    pub open spec fn wf(self) -> bool {
        &&& forall|i: int, j: int|
            0 <= i < j < self.panes@.len() ==> (#[trigger] self.panes@[i]).id@ != (
            #[trigger] self.panes@[j]).id@
        &&& has_pane(self.panes@, self.active_pane_id@)
    }

    /// Where the most recently closed tab reopens: its pane if that still
    /// exists, otherwise the active pane.
    pub open spec fn reopen_target(self) -> Seq<char> {
        let c = self.closed_tabs@.last();
        if has_pane(self.panes@, c.pane_id@) {
            c.pane_id@
        } else {
            self.active_pane_id@
        }
    }

    /// One empty main pane, which is active; autosave off.
    pub fn new() -> (r: Self)
        ensures
            r.wf(),
            r.panes@.len() == 1,
            r.panes@[0].id@ == DEFAULT_PANE_ID@,
            r.panes@[0].tabs@.len() == 0,
            r.panes@[0].active_tab_index == 0,
            r.active_pane_id@ == DEFAULT_PANE_ID@,
            tree_view(r.split_tree) == TreeView::Leaf(DEFAULT_PANE_ID@),
            r.closed_tabs@.len() == 0,
            !r.autosave_enabled,
    {
        let mut panes: Vec<WorkbenchPane> = Vec::new();
        panes.push(WorkbenchPane::new(DEFAULT_PANE_ID));
        let r = WorkbenchState {
            panes,
            active_pane_id: DEFAULT_PANE_ID.to_owned(),
            split_tree: SplitTree::Leaf { pane_id: DEFAULT_PANE_ID.to_owned() },
            closed_tabs: Vec::new(),
            autosave_enabled: false,
        };
        assert(pane_at(r.panes@, 0, r.active_pane_id@));
        r
    }

    fn pane_index(&self, id: &str) -> (r: Option<usize>)
        ensures
            match r {
                Some(i) => pane_at(self.panes@, i as int, id@),
                None => !has_pane(self.panes@, id@),
            },
    {
        let mut i: usize = 0;
        while i < self.panes.len()
            invariant
                i <= self.panes@.len(),
                forall|k: int| 0 <= k < i ==> !pane_at(self.panes@, k, id@),
            decreases self.panes.len() - i,
        {
            if str_eq(self.panes[i].id.as_str(), id) {
                return Some(i);
            }
            i = i + 1;
        }
        None
    }

    pub fn get_pane(&self, pane_id: &str) -> (r: Option<&WorkbenchPane>)
        ensures
            match r {
                Some(p) => exists|i: int| #[trigger] pane_at(self.panes@, i, pane_id@) && *p == self.panes@[i],
                None => !has_pane(self.panes@, pane_id@),
            },
    {
        match self.pane_index(pane_id) {
            Some(i) => Some(&self.panes[i]),
            None => None,
        }
    }

    pub fn active_pane(&self) -> (r: Option<&WorkbenchPane>)
        ensures
            match r {
                Some(p) => exists|i: int|
                    #[trigger] pane_at(self.panes@, i, self.active_pane_id@) && *p == self.panes@[i],
                None => !has_pane(self.panes@, self.active_pane_id@),
            },
    {
        self.get_pane(self.active_pane_id.as_str())
    }

    pub fn get_pane_mut(&mut self, pane_id: &str) -> (r: Option<&mut WorkbenchPane>)
        ensures
            match r {
                Some(p) => exists|i: int|
                    #[trigger] pane_at(old(self).panes@, i, pane_id@) && *p == old(self).panes@[i]
                        && final(self).panes@ == old(self).panes@.update(i, *final(p))
                        && final(self).active_pane_id == old(self).active_pane_id
                        && final(self).split_tree == old(self).split_tree
                        && final(self).closed_tabs == old(self).closed_tabs
                        && final(self).autosave_enabled == old(self).autosave_enabled,
                None => !has_pane(old(self).panes@, pane_id@) && *final(self) == *old(self),
            },
    {
        match self.pane_index(pane_id) {
            Some(i) => Some(&mut self.panes[i]),
            None => None,
        }
    }

    pub fn active_pane_mut(&mut self) -> (r: Option<&mut WorkbenchPane>)
        ensures
            match r {
                Some(p) => exists|i: int|
                    #[trigger] pane_at(old(self).panes@, i, old(self).active_pane_id@) && *p == old(
                        self,
                    ).panes@[i] && final(self).panes@ == old(self).panes@.update(i, *final(p))
                        && final(self).active_pane_id == old(self).active_pane_id
                        && final(self).split_tree == old(self).split_tree
                        && final(self).closed_tabs == old(self).closed_tabs
                        && final(self).autosave_enabled == old(self).autosave_enabled,
                None => !has_pane(old(self).panes@, old(self).active_pane_id@) && *final(self) == *old(
                    self,
                ),
            },
    {
        match self.pane_index(self.active_pane_id.as_str()) {
            Some(i) => Some(&mut self.panes[i]),
            None => None,
        }
    }

    /// Splits a pane: a new empty pane, named `pane-` and a random UUID,
    /// takes the second side of the target's leaf and becomes active.
    pub fn split_pane(
        &mut self,
        target_pane_id: &str,
        orientation: SplitOrientation,
        ratio: u32,
    ) -> (r: Result<String, CloseTabError>)
        requires
            old(self).wf(),
        ensures
            final(self).wf(),
            match r {
                Err(e) => e matches CloseTabError::PaneNotFound(p) && p@ == target_pane_id@
                    && !has_pane(old(self).panes@, target_pane_id@) && *final(self) == *old(self),
                Ok(id) => {
                    &&& has_pane(old(self).panes@, target_pane_id@)
                    &&& exists|bits: u128| id@ == "pane-"@ + #[trigger] uuid_text(bits)
                    &&& empty_pane_put(old(self).panes@, final(self).panes@, id@)
                    &&& tree_view(final(self).split_tree) == split_at(
                        tree_view(old(self).split_tree),
                        target_pane_id@,
                        id@,
                        orientation,
                        ratio,
                    )
                    &&& final(self).active_pane_id@ == id@
                    &&& final(self).closed_tabs == old(self).closed_tabs
                    &&& final(self).autosave_enabled == old(self).autosave_enabled
                },
            },
    {
        if self.pane_index(target_pane_id).is_none() {
            return Err(CloseTabError::PaneNotFound(target_pane_id.to_owned()));
        }
        let bits = random_uuid_bits();
        let text = uuid_string(bits);
        let mut new_id = "pane-".to_owned();
        new_id.push_str(text.as_str());
        let ghost before = self.panes@;
        match self.pane_index(new_id.as_str()) {
            Some(i) => {
                let p = &mut self.panes[i];
                p.tabs = Vec::new();
                p.active_tab_index = 0;
                assert(pane_changed(before, self.panes@, i as int, Seq::empty(), 0));
                assert(pane_at(before, i as int, new_id@));
                assert forall|a: int, b: int|
                    0 <= a < b < self.panes@.len() implies (#[trigger] self.panes@[a]).id@ != (
                    #[trigger] self.panes@[b]).id@ by {
                    assert(self.panes@[a].id == before[a].id);
                    assert(self.panes@[b].id == before[b].id);
                }
                assert(pane_at(self.panes@, i as int, new_id@));
            },
            None => {
                self.panes.push(WorkbenchPane::new(new_id.as_str()));
                assert(self.panes@.drop_last() =~= before);
                assert forall|a: int, b: int|
                    0 <= a < b < self.panes@.len() implies (#[trigger] self.panes@[a]).id@ != (
                    #[trigger] self.panes@[b]).id@ by {
                    if b == before.len() {
                        assert(!pane_at(before, a, new_id@));
                    } else {
                        assert(self.panes@[a] == before[a]);
                        assert(self.panes@[b] == before[b]);
                    }
                }
                assert(pane_at(self.panes@, before.len() as int, new_id@));
            },
        }
        let mut tree = SplitTree::Leaf { pane_id: String::new() };
        std::mem::swap(&mut tree, &mut self.split_tree);
        self.split_tree = insert_split(tree, target_pane_id, new_id.as_str(), orientation, ratio);
        self.active_pane_id = new_id.clone();
        Ok(new_id)
    }

    /// Closes a pane, moving its tabs to the end of the first remaining
    /// pane, which becomes active if the closed one was. The last pane and
    /// unknown ids are refused.
    pub fn close_pane(&mut self, pane_id: &str) -> (r: bool)
        requires
            old(self).wf(),
        ensures
            final(self).wf(),
            r == (old(self).panes@.len() > 1 && has_pane(old(self).panes@, pane_id@)),
            !r ==> *final(self) == *old(self),
            r ==> exists|i: int|
                #[trigger] pane_at(old(self).panes@, i, pane_id@) && pane_closed(
                    old(self).panes@,
                    final(self).panes@,
                    i,
                ) && final(self).active_pane_id@ == (if old(self).active_pane_id@ == pane_id@ {
                    old(self).panes@.remove(i)[0].id@
                } else {
                    old(self).active_pane_id@
                }),
            r ==> tree_view(final(self).split_tree) == pruned(tree_view(old(self).split_tree), pane_id@),
            final(self).closed_tabs == old(self).closed_tabs,
            final(self).autosave_enabled == old(self).autosave_enabled,
    {
        if self.panes.len() <= 1 {
            return false;
        }
        let i = match self.pane_index(pane_id) {
            Some(i) => i,
            None => {
                return false;
            },
        };
        let ghost before = self.panes@;
        let mut removed = self.panes.remove(i);
        let ghost rest = self.panes@;
        assert(rest == before.remove(i as int));
        let fallback = &mut self.panes[0];
        fallback.tabs.append(&mut removed.tabs);
        assert(pane_changed(rest, self.panes@, 0, rest[0].tabs@ + before[i as int].tabs@, rest[0].active_tab_index as int));
        assert forall|a: int, b: int|
            0 <= a < b < self.panes@.len() implies (#[trigger] self.panes@[a]).id@ != (
            #[trigger] self.panes@[b]).id@ by {
            assert(self.panes@[a].id == rest[a].id);
            assert(self.panes@[b].id == rest[b].id);
            let a0 = if a < i { a } else { a + 1 };
            let b0 = if b < i { b } else { b + 1 };
            assert(rest[a] == before[a0]);
            assert(rest[b] == before[b0]);
        }
        if str_eq(self.active_pane_id.as_str(), pane_id) {
            self.active_pane_id = self.panes[0].id.clone();
            assert(pane_at(self.panes@, 0, self.active_pane_id@));
        } else {
            let ghost j = choose|j: int| pane_at(before, j, self.active_pane_id@);
            assert(j != i);
            let ghost j0 = if j < i { j } else { j - 1 };
            assert(rest[j0] == before[j]);
            assert(self.panes@[j0].id == rest[j0].id);
            assert(pane_at(self.panes@, j0, self.active_pane_id@));
        }
        let mut tree = SplitTree::Leaf { pane_id: String::new() };
        std::mem::swap(&mut tree, &mut self.split_tree);
        self.split_tree = prune_split_tree(tree, pane_id);
        assert(pane_at(before, i as int, pane_id@));
        true
    }

    /// Opens a request in the active pane, or selects the first tab there
    /// that already shows it; returns the index of that tab.
    pub fn open_request(&mut self, request: RequestDocument) -> (r: usize)
        requires
            old(self).wf(),
        ensures
            final(self).wf(),
            exists|i: int|
                #[trigger] pane_at(old(self).panes@, i, old(self).active_pane_id@) && ({
                    let tabs = old(self).panes@[i].tabs@;
                    if shows_request(tabs, request.id) {
                        first_tab_for(tabs, request.id, r as int) && pane_changed(
                            old(self).panes@,
                            final(self).panes@,
                            i,
                            tabs,
                            r as int,
                        )
                    } else {
                        &&& r == tabs.len()
                        &&& pane_changed(
                            old(self).panes@,
                            final(self).panes@,
                            i,
                            final(self).panes@[i].tabs@,
                            r as int,
                        )
                        &&& final(self).panes@[i].tabs@.len() == tabs.len() + 1
                        &&& final(self).panes@[i].tabs@.drop_last() == tabs
                        &&& fresh_tab(final(self).panes@[i].tabs@.last(), request@)
                    }
                }),
            final(self).active_pane_id == old(self).active_pane_id,
            final(self).split_tree == old(self).split_tree,
            final(self).closed_tabs == old(self).closed_tabs,
            final(self).autosave_enabled == old(self).autosave_enabled,
    {
        let i = match self.pane_index(self.active_pane_id.as_str()) {
            Some(i) => i,
            None => {
                proof {
                    assert(false);
                }
                0
            },
        };
        let ghost before = self.panes@;
        let ghost tabs = before[i as int].tabs@;
        let mut k: usize = 0;
        while k < self.panes[i].tabs.len()
            invariant
                *self == *old(self),
                old(self).wf(),
                pane_at(before, i as int, old(self).active_pane_id@),
                i < self.panes@.len(),
                self.panes@ == before,
                tabs == before[i as int].tabs@,
                k <= tabs.len(),
                forall|j: int| 0 <= j < k ==> (#[trigger] tabs[j]).request.id != request.id,
            decreases tabs.len() - k,
        {
            if self.panes[i].tabs[k].request.id == request.id {
                let p = &mut self.panes[i];
                p.active_tab_index = k;
                assert(first_tab_for(tabs, request.id, k as int));
                assert(shows_request(tabs, request.id));
                assert(pane_changed(before, self.panes@, i as int, tabs, k as int));
                proof { self.lemma_same_ids(before, i as int); }
                return k;
            }
            k = k + 1;
        }
        assert(!shows_request(tabs, request.id));
        let tab = RequestTabState::new(request);
        let p = &mut self.panes[i];
        p.tabs.push(tab);
        p.active_tab_index = p.tabs.len() - 1;
        let r = p.active_tab_index;
        assert(self.panes@[i as int].tabs@.drop_last() =~= tabs);
        proof { self.lemma_same_ids(before, i as int); }
        r
    }

    /// Pane ids did not change when only pane `i`'s tabs or index did.
    proof fn lemma_same_ids(self, before: Seq<WorkbenchPane>, i: int)
        requires
            0 <= i < before.len(),
            self.panes@.len() == before.len(),
            self.panes@[i].id == before[i].id,
            forall|k: int| 0 <= k < before.len() && k != i ==> self.panes@[k] == before[k],
            forall|a: int, b: int|
                0 <= a < b < before.len() ==> (#[trigger] before[a]).id@ != (#[trigger] before[b]).id@,
            has_pane(before, self.active_pane_id@),
        ensures
            self.wf(),
    {
        assert forall|a: int, b: int|
            0 <= a < b < self.panes@.len() implies (#[trigger] self.panes@[a]).id@ != (
            #[trigger] self.panes@[b]).id@ by {
            assert(self.panes@[a].id == before[a].id);
            assert(self.panes@[b].id == before[b].id);
        }
        let j = choose|j: int| pane_at(before, j, self.active_pane_id@);
        assert(self.panes@[j].id == before[j].id);
        assert(pane_at(self.panes@, j, self.active_pane_id@));
    }

    /// Removes tab `idx` of pane `i`, keeping the active index in range.
    fn take_tab(&mut self, i: usize, idx: usize) -> (t: RequestTabState)
        requires
            old(self).wf(),
            i < old(self).panes@.len(),
            idx < old(self).panes@[i as int].tabs@.len(),
        ensures
            final(self).wf(),
            t == old(self).panes@[i as int].tabs@[idx as int],
            pane_changed(
                old(self).panes@,
                final(self).panes@,
                i as int,
                old(self).panes@[i as int].tabs@.remove(idx as int),
                active_after_close(
                    old(self).panes@[i as int].active_tab_index as int,
                    idx as int,
                    old(self).panes@[i as int].tabs@.len() - 1,
                ),
            ),
            final(self).active_pane_id == old(self).active_pane_id,
            final(self).split_tree == old(self).split_tree,
            final(self).closed_tabs == old(self).closed_tabs,
            final(self).autosave_enabled == old(self).autosave_enabled,
    {
        let ghost before = self.panes@;
        let p = &mut self.panes[i];
        let t = p.tabs.remove(idx);
        if idx < p.active_tab_index {
            p.active_tab_index = p.active_tab_index - 1;
        } else if p.active_tab_index >= p.tabs.len() && p.tabs.len() > 0 {
            p.active_tab_index = p.tabs.len() - 1;
        }
        proof { self.lemma_same_ids(before, i as int); }
        t
    }

    /// Closes a tab. A tab with unsaved changes is refused unless autosave
    /// is on. The closed tab is recorded for reopening; the history keeps
    /// its newest entries only.
    pub fn close_tab(&mut self, pane_id: &str, tab_index: usize) -> (r: Result<RequestTabState, CloseTabError>)
        requires
            old(self).wf(),
        ensures
            final(self).wf(),
            match r {
                Err(CloseTabError::PaneNotFound(p)) => p@ == pane_id@ && !has_pane(old(self).panes@, pane_id@)
                    && *final(self) == *old(self),
                Err(CloseTabError::IndexOutOfBounds(n)) => n == tab_index && exists|i: int|
                    #[trigger] pane_at(old(self).panes@, i, pane_id@) && tab_index >= old(
                        self,
                    ).panes@[i].tabs@.len() && *final(self) == *old(self),
                Err(CloseTabError::UnsavedChanges(id)) => exists|i: int|
                    #[trigger] pane_at(old(self).panes@, i, pane_id@) && tab_index < old(
                        self,
                    ).panes@[i].tabs@.len() && old(self).panes@[i].tabs@[tab_index as int].is_dirty
                        && !old(self).autosave_enabled && id == old(
                        self,
                    ).panes@[i].tabs@[tab_index as int].request.id && *final(self) == *old(self),
                Ok(t) => tab_closed(*old(self), *final(self), pane_id@, tab_index as int, t, true)
                    && !(t.is_dirty && !old(self).autosave_enabled),
            },
    {
        let i = match self.pane_index(pane_id) {
            Some(i) => i,
            None => {
                return Err(CloseTabError::PaneNotFound(pane_id.to_owned()));
            },
        };
        if tab_index >= self.panes[i].tabs.len() {
            return Err(CloseTabError::IndexOutOfBounds(tab_index));
        }
        if self.panes[i].tabs[tab_index].is_dirty && !self.autosave_enabled {
            return Err(CloseTabError::UnsavedChanges(self.panes[i].tabs[tab_index].request.id));
        }
        let removed = self.take_tab(i, tab_index);
        let info = ClosedTabInfo {
            pane_id: pane_id.to_owned(),
            tab_state: removed.copy(),
            closed_at: unix_timestamp(),
        };
        let ghost hist = self.closed_tabs@;
        self.closed_tabs.push(info);
        if self.closed_tabs.len() > MAX_CLOSED_TABS_HISTORY {
            self.closed_tabs.remove(0);
        }
        Ok(removed)
    }

    /// Closes a tab at once, discarding unsaved changes; it is recorded for
    /// reopening without trimming the history.
    pub fn force_close_tab(&mut self, pane_id: &str, tab_index: usize) -> (r: Option<RequestTabState>)
        requires
            old(self).wf(),
        ensures
            final(self).wf(),
            match r {
                None => !(exists|i: int|
                    #[trigger] pane_at(old(self).panes@, i, pane_id@) && tab_index < old(
                        self,
                    ).panes@[i].tabs@.len()) && *final(self) == *old(self),
                Some(t) => tab_closed(*old(self), *final(self), pane_id@, tab_index as int, t, false),
            },
    {
        let i = match self.pane_index(pane_id) {
            Some(i) => i,
            None => {
                return None;
            },
        };
        if tab_index >= self.panes[i].tabs.len() {
            return None;
        }
        let removed = self.take_tab(i, tab_index);
        let info = ClosedTabInfo {
            pane_id: pane_id.to_owned(),
            tab_state: removed.copy(),
            closed_at: unix_timestamp(),
        };
        self.closed_tabs.push(info);
        Some(removed)
    }

    /// Reopens the most recently closed tab, in its pane if that still
    /// exists and otherwise in the active pane, where it becomes active.
    pub fn reopen_closed_tab(&mut self) -> (r: Option<&RequestTabState>)
        requires
            old(self).wf(),
        ensures
            final(self).wf(),
            r is None <==> old(self).closed_tabs@.len() == 0,
            r is None ==> *final(self) == *old(self),
            r is Some ==> tab_reopened(*old(self), *final(self), *r->0),
    {
        if self.closed_tabs.len() == 0 {
            return None;
        }
        let ghost c0 = self.closed_tabs@.last();
        let closed = match self.closed_tabs.pop() {
            Some(c) => c,
            None => {
                return None;
            },
        };
        assert(closed == c0);
        assert(self.closed_tabs@ == old(self).closed_tabs@.drop_last());
        let i = match self.pane_index(closed.pane_id.as_str()) {
            Some(i) => i,
            None => match self.pane_index(self.active_pane_id.as_str()) {
                Some(i) => i,
                None => {
                    proof {
                        assert(false);
                    }
                    0
                },
            },
        };
        let ghost before = self.panes@;
        let ghost target = if has_pane(before, c0.pane_id@) {
            c0.pane_id@
        } else {
            old(self).active_pane_id@
        };
        assert(before == old(self).panes@);
        assert(target == old(self).reopen_target());
        assert(pane_at(before, i as int, target));
        let p = &mut self.panes[i];
        p.tabs.push(closed.tab_state);
        p.active_tab_index = p.tabs.len() - 1;
        proof {
            self.lemma_same_ids(before, i as int);
            assert(pane_changed(
                before,
                self.panes@,
                i as int,
                before[i as int].tabs@.push(c0.tab_state),
                before[i as int].tabs@.len() as int,
            ));
        }
        let n = self.panes[i].tabs.len() - 1;
        Some(&self.panes[i].tabs[n])
    }

    /// Pins a tab; `false` when there is no such tab.
    pub fn pin_tab(&mut self, pane_id: &str, tab_index: usize) -> (r: bool)
        requires
            old(self).wf(),
        ensures
            final(self).wf(),
            r == has_tab(old(self).panes@, pane_id@, tab_index as int),
            !r ==> *final(self) == *old(self),
            r ==> exists|i: int|
                #[trigger] pane_at(old(self).panes@, i, pane_id@) && pane_changed(
                    old(self).panes@,
                    final(self).panes@,
                    i,
                    old(self).panes@[i].tabs@.update(
                        tab_index as int,
                        RequestTabState { is_pinned: true, ..old(self).panes@[i].tabs@[tab_index as int] },
                    ),
                    old(self).panes@[i].active_tab_index as int,
                ),
            final(self).active_pane_id == old(self).active_pane_id,
            final(self).split_tree == old(self).split_tree,
            final(self).closed_tabs == old(self).closed_tabs,
            final(self).autosave_enabled == old(self).autosave_enabled,
    {
        self.set_pinned(pane_id, tab_index, true)
    }

    /// Unpins a tab; `false` when there is no such tab.
    pub fn unpin_tab(&mut self, pane_id: &str, tab_index: usize) -> (r: bool)
        requires
            old(self).wf(),
        ensures
            final(self).wf(),
            r == has_tab(old(self).panes@, pane_id@, tab_index as int),
            !r ==> *final(self) == *old(self),
            r ==> exists|i: int|
                #[trigger] pane_at(old(self).panes@, i, pane_id@) && pane_changed(
                    old(self).panes@,
                    final(self).panes@,
                    i,
                    old(self).panes@[i].tabs@.update(
                        tab_index as int,
                        RequestTabState { is_pinned: false, ..old(self).panes@[i].tabs@[tab_index as int] },
                    ),
                    old(self).panes@[i].active_tab_index as int,
                ),
            final(self).active_pane_id == old(self).active_pane_id,
            final(self).split_tree == old(self).split_tree,
            final(self).closed_tabs == old(self).closed_tabs,
            final(self).autosave_enabled == old(self).autosave_enabled,
    {
        self.set_pinned(pane_id, tab_index, false)
    }

    fn set_pinned(&mut self, pane_id: &str, tab_index: usize, pinned: bool) -> (r: bool)
        requires
            old(self).wf(),
        ensures
            final(self).wf(),
            r == has_tab(old(self).panes@, pane_id@, tab_index as int),
            !r ==> *final(self) == *old(self),
            r ==> exists|i: int|
                #[trigger] pane_at(old(self).panes@, i, pane_id@) && pane_changed(
                    old(self).panes@,
                    final(self).panes@,
                    i,
                    old(self).panes@[i].tabs@.update(
                        tab_index as int,
                        RequestTabState { is_pinned: pinned, ..old(self).panes@[i].tabs@[tab_index as int] },
                    ),
                    old(self).panes@[i].active_tab_index as int,
                ),
            final(self).active_pane_id == old(self).active_pane_id,
            final(self).split_tree == old(self).split_tree,
            final(self).closed_tabs == old(self).closed_tabs,
            final(self).autosave_enabled == old(self).autosave_enabled,
    {
        let i = match self.pane_index(pane_id) {
            Some(i) => i,
            None => {
                return false;
            },
        };
        if tab_index >= self.panes[i].tabs.len() {
            return false;
        }
        let ghost before = self.panes@;
        let p = &mut self.panes[i];
        let t = &mut p.tabs[tab_index];
        t.is_pinned = pinned;
        proof {
            self.lemma_same_ids(before, i as int);
            assert(pane_at(before, i as int, pane_id@));
        }
        true
    }

    /// Duplicates a tab: a copy of its request with a fresh identifier and
    /// ` (Copy)` after its name opens right after it and becomes active.
    pub fn duplicate_tab(&mut self, pane_id: &str, tab_index: usize) -> (r: Option<ResourceId>)
        requires
            old(self).wf(),
        ensures
            final(self).wf(),
            r is None <==> !has_tab(old(self).panes@, pane_id@, tab_index as int),
            r is None ==> *final(self) == *old(self),
            r is Some ==> exists|i: int|
                #[trigger] pane_at(old(self).panes@, i, pane_id@) && {
                    let tabs = old(self).panes@[i].tabs@;
                    let new_tabs = final(self).panes@[i].tabs@;
                    let source = tabs[tab_index as int].request@;
                    &&& pane_changed(
                        old(self).panes@,
                        final(self).panes@,
                        i,
                        new_tabs,
                        tab_index + 1,
                    )
                    &&& tab_index < tabs.len()
                    &&& new_tabs == tabs.insert(tab_index + 1, new_tabs[tab_index + 1])
                    &&& fresh_tab(
                        new_tabs[tab_index + 1],
                        RequestDocumentView {
                            id: r->0,
                            name: source.name + " (Copy)"@,
                            ..source
                        },
                    )
                },
            final(self).active_pane_id == old(self).active_pane_id,
            final(self).split_tree == old(self).split_tree,
            final(self).closed_tabs == old(self).closed_tabs,
            final(self).autosave_enabled == old(self).autosave_enabled,
    {
        let i = match self.pane_index(pane_id) {
            Some(i) => i,
            None => {
                return None;
            },
        };
        if tab_index >= self.panes[i].tabs.len() {
            return None;
        }
        let ghost before = self.panes@;
        let mut request = self.panes[i].tabs[tab_index].request.copy();
        request.id = ResourceId::new();
        request.name.push_str(" (Copy)");
        let tab = RequestTabState::new(request);
        let new_id = tab.request.id;
        let p = &mut self.panes[i];
        p.tabs.insert(tab_index + 1, tab);
        p.active_tab_index = tab_index + 1;
        proof {
            self.lemma_same_ids(before, i as int);
            assert(pane_at(before, i as int, pane_id@));
        }
        Some(new_id)
    }

    /// Moves tab `from_index` to position `to_index` of the same pane, where
    /// it becomes active.
    pub fn reorder_tabs(&mut self, pane_id: &str, from_index: usize, to_index: usize) -> (r: bool)
        requires
            old(self).wf(),
        ensures
            final(self).wf(),
            r == (has_tab(old(self).panes@, pane_id@, from_index as int) && has_tab(
                old(self).panes@,
                pane_id@,
                to_index as int,
            )),
            !r ==> *final(self) == *old(self),
            r ==> exists|i: int|
                #[trigger] pane_at(old(self).panes@, i, pane_id@) && pane_changed(
                    old(self).panes@,
                    final(self).panes@,
                    i,
                    old(self).panes@[i].tabs@.remove(from_index as int).insert(
                        to_index as int,
                        old(self).panes@[i].tabs@[from_index as int],
                    ),
                    to_index as int,
                ),
            final(self).active_pane_id == old(self).active_pane_id,
            final(self).split_tree == old(self).split_tree,
            final(self).closed_tabs == old(self).closed_tabs,
            final(self).autosave_enabled == old(self).autosave_enabled,
    {
        let i = match self.pane_index(pane_id) {
            Some(i) => i,
            None => {
                return false;
            },
        };
        if from_index >= self.panes[i].tabs.len() || to_index >= self.panes[i].tabs.len() {
            proof {
                assert forall|k: int| pane_at(self.panes@, k, pane_id@) implies k == i by {
                    if k != i {
                        assert(self.panes@[k].id@ != self.panes@[i as int].id@);
                    }
                }
            }
            return false;
        }
        let ghost before = self.panes@;
        let p = &mut self.panes[i];
        let tab = p.tabs.remove(from_index);
        p.tabs.insert(to_index, tab);
        p.active_tab_index = to_index;
        proof {
            self.lemma_same_ids(before, i as int);
            assert(pane_at(before, i as int, pane_id@));
        }
        true
    }

    /// Moves a tab to the end of another pane, where it becomes active.
    /// When the destination does not exist the tab has already left its
    /// pane and is dropped.
    pub fn move_tab_to_pane(&mut self, from_pane_id: &str, tab_index: usize, to_pane_id: &str) -> (r: bool)
        requires
            old(self).wf(),
        ensures
            final(self).wf(),
            r == (from_pane_id@ != to_pane_id@ && has_tab(
                old(self).panes@,
                from_pane_id@,
                tab_index as int,
            ) && has_pane(old(self).panes@, to_pane_id@)),
            (from_pane_id@ == to_pane_id@ || !has_tab(old(self).panes@, from_pane_id@, tab_index as int))
                ==> *final(self) == *old(self),
            (from_pane_id@ != to_pane_id@ && has_tab(old(self).panes@, from_pane_id@, tab_index as int))
                ==> exists|i: int|
                #[trigger] pane_at(old(self).panes@, i, from_pane_id@) && {
                    let ps = old(self).panes@;
                    let t = ps[i].tabs@[tab_index as int];
                    let left = ps[i].tabs@.remove(tab_index as int);
                    let fa = if ps[i].active_tab_index >= left.len() && left.len() > 0 {
                        left.len() - 1
                    } else {
                        ps[i].active_tab_index as int
                    };
                    if has_pane(ps, to_pane_id@) {
                        exists|j: int|
                            #[trigger] pane_at(ps, j, to_pane_id@) && {
                                &&& j != i
                                &&& final(self).panes@.len() == ps.len()
                                &&& final(self).panes@[i].id == ps[i].id
                                &&& final(self).panes@[i].tabs@ == left
                                &&& final(self).panes@[i].active_tab_index == fa
                                &&& final(self).panes@[j].id == ps[j].id
                                &&& final(self).panes@[j].tabs@ == ps[j].tabs@.push(t)
                                &&& final(self).panes@[j].active_tab_index == ps[j].tabs@.len()
                                &&& forall|k: int|
                                    0 <= k < ps.len() && k != i && k != j ==> final(self).panes@[k]
                                        == ps[k]
                            }
                    } else {
                        pane_changed(ps, final(self).panes@, i, left, fa)
                    }
                },
            final(self).active_pane_id == old(self).active_pane_id,
            final(self).split_tree == old(self).split_tree,
            final(self).closed_tabs == old(self).closed_tabs,
            final(self).autosave_enabled == old(self).autosave_enabled,
    {
        if str_eq(from_pane_id, to_pane_id) {
            return false;
        }
        let i = match self.pane_index(from_pane_id) {
            Some(i) => i,
            None => {
                return false;
            },
        };
        if tab_index >= self.panes[i].tabs.len() {
            proof {
                assert forall|k: int| pane_at(self.panes@, k, from_pane_id@) implies k == i by {
                    if k != i {
                        assert(self.panes@[k].id@ != self.panes@[i as int].id@);
                    }
                }
            }
            return false;
        }
        let ghost ps = self.panes@;
        let p = &mut self.panes[i];
        let tab = p.tabs.remove(tab_index);
        if p.active_tab_index >= p.tabs.len() && p.tabs.len() > 0 {
            p.active_tab_index = p.tabs.len() - 1;
        }
        proof {
            self.lemma_same_ids(ps, i as int);
            assert(pane_at(ps, i as int, from_pane_id@));
        }
        let ghost mid = self.panes@;
        let j = match self.pane_index(to_pane_id) {
            Some(j) => j,
            None => {
                proof {
                    assert forall|k: int| #[trigger] pane_at(ps, k, to_pane_id@) implies false by {
                        if k != i {
                            assert(self.panes@[k] == ps[k]);
                            assert(pane_at(self.panes@, k, to_pane_id@));
                        }
                    }
                }
                return false;
            },
        };
        assert(j != i);
        let q = &mut self.panes[j];
        q.tabs.push(tab);
        q.active_tab_index = q.tabs.len() - 1;
        proof {
            self.lemma_same_ids(mid, j as int);
            assert(mid[j as int] == ps[j as int]);
            assert(pane_at(ps, j as int, to_pane_id@));
        }
        true
    }

    /// Records of every open tab, pane by pane, each with its position.
    pub fn to_tab_state_records(&self, workspace_id: &str) -> (r: Vec<TabStateRecord>)
        ensures
            record_views(r@) == all_records(self.panes@, workspace_id@),
    {
        let mut records: Vec<TabStateRecord> = Vec::new();
        let mut i: usize = 0;
        assert(self.panes@.take(0) =~= Seq::<WorkbenchPane>::empty());
        assert(record_views(records@) =~= Seq::<RecordView>::empty());
        while i < self.panes.len()
            invariant
                i <= self.panes@.len(),
                record_views(records@) == all_records(self.panes@.take(i as int), workspace_id@),
            decreases self.panes.len() - i,
        {
            let pane = &self.panes[i];
            let ghost base = record_views(records@);
            let mut k: usize = 0;
            assert(base + pane_records(*pane, workspace_id@, 0) =~= base);
            while k < pane.tabs.len()
                invariant
                    k <= pane.tabs@.len(),
                    record_views(records@) == base + pane_records(*pane, workspace_id@, k as int),
                decreases pane.tabs.len() - k,
            {
                let tab = &pane.tabs[k];
                let rec = TabStateRecord {
                    id: uuid_string(tab.tab_id.0),
                    workspace_id: workspace_id.to_owned(),
                    resource_id: tab.request.id,
                    tab_order: k as i32,
                    is_pinned: tab.is_pinned,
                    pane_id: Some(pane.id.clone()),
                };
                let ghost prev = record_views(records@);
                records.push(rec);
                assert(record_views(records@) =~= prev.push(record_view(rec)));
                assert(record_view(rec) == record_of(*pane, workspace_id@, k as int));
                k = k + 1;
            }
            assert(self.panes@.take(i + 1).drop_last() =~= self.panes@.take(i as int));
            i = i + 1;
        }
        assert(self.panes@.take(i as int) =~= self.panes@);
        records
    }

    /// Reopens saved tabs: see `restore_step` for what each record does.
    pub fn restore_from_records(&mut self, records: &[TabStateRecord], requests: &[RequestDocument])
        requires
            old(self).wf(),
        ensures
            final(self).wf(),
            exists|chain: Seq<Seq<WorkbenchPane>>|
                {
                    &&& chain.len() == records@.len() + 1
                    &&& chain[0] == old(self).panes@
                    &&& chain.last() == final(self).panes@
                    &&& forall|k: int|
                        0 <= k < records@.len() ==> #[trigger] restore_step(
                            chain[k],
                            chain[k + 1],
                            records@[k],
                            requests@,
                        )
                },
            final(self).active_pane_id == old(self).active_pane_id,
            final(self).split_tree == old(self).split_tree,
            final(self).closed_tabs == old(self).closed_tabs,
            final(self).autosave_enabled == old(self).autosave_enabled,
    {
        let ghost mut chain: Seq<Seq<WorkbenchPane>> = seq![self.panes@];
        let mut n: usize = 0;
        while n < records.len()
            invariant
                self.wf(),
                n <= records@.len(),
                chain.len() == n + 1,
                chain[0] == old(self).panes@,
                chain.last() == self.panes@,
                forall|k: int|
                    0 <= k < n ==> #[trigger] restore_step(chain[k], chain[k + 1], records@[k], requests@),
                self.active_pane_id == old(self).active_pane_id,
                self.split_tree == old(self).split_tree,
                self.closed_tabs == old(self).closed_tabs,
                self.autosave_enabled == old(self).autosave_enabled,
            decreases records.len() - n,
        {
            let rec = &records[n];
            let ghost before = self.panes@;
            let mut k: usize = 0;
            while k < requests.len() && requests[k].id != rec.resource_id
                invariant
                    k <= requests@.len(),
                    forall|j: int| 0 <= j < k ==> (#[trigger] requests@[j]).id != rec.resource_id,
                decreases requests.len() - k,
            {
                k = k + 1;
            }
            if k < requests.len() {
                assert(first_request(requests@, rec.resource_id, k as int));
                let request = requests[k].copy();
                let target = match &rec.pane_id {
                    Some(p) => p.clone(),
                    None => DEFAULT_PANE_ID.to_owned(),
                };
                assert(target@ == record_target(*rec));
                let mut tab = RequestTabState::new(request);
                tab.is_pinned = rec.is_pinned;
                match self.pane_index(target.as_str()) {
                    Some(i) => {
                        let p = &mut self.panes[i];
                        p.tabs.push(tab);
                        proof {
                            self.lemma_same_ids(before, i as int);
                            assert(pane_at(before, i as int, record_target(*rec)));
                            assert(self.panes@[i as int].tabs@.drop_last() =~= before[i as int].tabs@);
                        }
                    },
                    None => {
                        let mut pane = WorkbenchPane::new(target.as_str());
                        pane.tabs.push(tab);
                        self.panes.push(pane);
                        proof {
                            assert(self.panes@.drop_last() =~= before);
                            assert forall|a: int, b: int|
                                0 <= a < b < self.panes@.len() implies (#[trigger] self.panes@[a]).id@ != (
                                #[trigger] self.panes@[b]).id@ by {
                                if b == before.len() {
                                    assert(!pane_at(before, a, target@));
                                } else {
                                    assert(self.panes@[a] == before[a]);
                                    assert(self.panes@[b] == before[b]);
                                }
                            }
                            let j = choose|j: int| pane_at(before, j, self.active_pane_id@);
                            assert(self.panes@[j] == before[j]);
                            assert(pane_at(self.panes@, j, self.active_pane_id@));
                        }
                    },
                }
            }
            proof {
                chain = chain.push(self.panes@);
                assert(restore_step(chain[n as int], chain[n + 1], records@[n as int], requests@));
            }
            n = n + 1;
        }
    }

    /// Makes a pane active; an unknown id changes nothing.
    pub fn set_active_pane(&mut self, pane_id: &str) -> (r: bool)
        requires
            old(self).wf(),
        ensures
            final(self).wf(),
            r == has_pane(old(self).panes@, pane_id@),
            final(self).active_pane_id@ == if r {
                pane_id@
            } else {
                old(self).active_pane_id@
            },
            final(self).panes == old(self).panes,
            final(self).split_tree == old(self).split_tree,
            final(self).closed_tabs == old(self).closed_tabs,
            final(self).autosave_enabled == old(self).autosave_enabled,
    {
        match self.pane_index(pane_id) {
            Some(i) => {
                self.active_pane_id = pane_id.to_owned();
                assert(pane_at(self.panes@, i as int, self.active_pane_id@));
                true
            },
            None => false,
        }
    }
}

} // verus!
