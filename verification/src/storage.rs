//! Workspace cache rules: history queries, file-watcher ignore rules,
//! event debouncing, and conflict detection.
use vstd::prelude::*;
use std::path::PathBuf;
use crate::domain::ResourceId;
use crate::text::{
    chars_of, contains, contains_seq, is_suffix_seq, push_decimal, decimal, str_eq, to_uppercase,
    uppercase,
};

verus! {

/// Filter criteria for querying execution history.
#[derive(Debug, Clone, PartialEq, Eq, Default)]
pub struct HistoryFilter {
    pub method: Option<String>,
    pub status_min: Option<u16>,
    pub status_max: Option<u16>,
    pub url_contains: Option<String>,
    pub limit: usize,
}

pub open spec fn method_clause(f: HistoryFilter) -> Seq<char> {
    match f.method {
        Some(m) => " AND method = '"@ + uppercase(m@) + "'"@,
        None => Seq::empty(),
    }
}

pub open spec fn status_min_clause(f: HistoryFilter) -> Seq<char> {
    match f.status_min {
        Some(v) => " AND status_code >= "@ + decimal(v as nat),
        None => Seq::empty(),
    }
}

pub open spec fn status_max_clause(f: HistoryFilter) -> Seq<char> {
    match f.status_max {
        Some(v) => " AND status_code <= "@ + decimal(v as nat),
        None => Seq::empty(),
    }
}

pub open spec fn url_clause(f: HistoryFilter) -> Seq<char> {
    match f.url_contains {
        Some(u) => " AND url LIKE '%"@ + u@ + "%'"@,
        None => Seq::empty(),
    }
}

pub open spec fn limit_clause(f: HistoryFilter) -> Seq<char> {
    " ORDER BY executed_at DESC LIMIT "@ + decimal(
        if f.limit == 0 {
            50
        } else {
            f.limit as nat
        },
    )
}

/// The SQL text that selects history rows for a filter: matching method
/// (uppercased), status range and URL part, newest first, at most `limit`
/// rows (50 when the limit is 0).
pub open spec fn history_sql(f: HistoryFilter) -> Seq<char> {
    "SELECT id, request_id, request_name, protocol, method, url, status_code, duration_ms, response_size_bytes, executed_at FROM history WHERE 1=1"@
        + method_clause(f) + status_min_clause(f) + status_max_clause(f) + url_clause(f)
        + limit_clause(f)
}

fn push_method_clause(q: &mut String, filter: &HistoryFilter)
    ensures
        final(q)@ == old(q)@ + method_clause(*filter),
{
    match &filter.method {
        Some(m) => {
            q.push_str(" AND method = '");
            q.push_str(to_uppercase(m.as_str()).as_str());
            q.push_str("'");
        },
        None => {
            assert(old(q)@ + Seq::<char>::empty() =~= old(q)@);
        },
    }
}

fn push_status_clauses(q: &mut String, filter: &HistoryFilter)
    ensures
        final(q)@ == old(q)@ + status_min_clause(*filter) + status_max_clause(*filter),
{
    let ghost start = q@;
    match filter.status_min {
        Some(v) => {
            q.push_str(" AND status_code >= ");
            push_decimal(q, v as u64);
        },
        None => {},
    }
    assert(q@ =~= start + status_min_clause(*filter));
    let ghost mid = q@;
    match filter.status_max {
        Some(v) => {
            q.push_str(" AND status_code <= ");
            push_decimal(q, v as u64);
        },
        None => {},
    }
    assert(q@ =~= mid + status_max_clause(*filter));
}

fn push_tail_clauses(q: &mut String, filter: &HistoryFilter)
    ensures
        final(q)@ == old(q)@ + url_clause(*filter) + limit_clause(*filter),
{
    let ghost start = q@;
    match &filter.url_contains {
        Some(u) => {
            q.push_str(" AND url LIKE '%");
            q.push_str(u.as_str());
            q.push_str("%'");
        },
        None => {},
    }
    assert(q@ =~= start + url_clause(*filter));
    let ghost mid = q@;
    q.push_str(" ORDER BY executed_at DESC LIMIT ");
    let limit: u64 = if filter.limit == 0 {
        50
    } else {
        filter.limit as u64
    };
    push_decimal(q, limit);
    assert(q@ =~= mid + limit_clause(*filter));
}

/// The query that selects history rows for `filter`.
pub fn history_query(filter: &HistoryFilter) -> (q: String)
    ensures
        q@ == history_sql(*filter),
        is_suffix_seq(
            " ORDER BY executed_at DESC"@ + " LIMIT "@ + decimal(
                if filter.limit == 0 {
                    50
                } else {
                    filter.limit as nat
                },
            ),
            q@,
        ),
{
    let mut q = "SELECT id, request_id, request_name, protocol, method, url, status_code, duration_ms, response_size_bytes, executed_at FROM history WHERE 1=1".to_owned();
    push_method_clause(&mut q, filter);
    push_status_clauses(&mut q, filter);
    push_tail_clauses(&mut q, filter);
    proof {
        law_history_newest_first(*filter);
    }
    q
}

/// History rows come newest first: the query always ends by ordering on the
/// execution time, descending, and keeping at most the filter's limit (50
/// when the limit is 0), so a limit keeps the most recent runs.
pub proof fn law_history_newest_first(f: HistoryFilter)
    ensures
        is_suffix_seq(
            " ORDER BY executed_at DESC"@ + " LIMIT "@ + decimal(
                if f.limit == 0 {
                    50
                } else {
                    f.limit as nat
                },
            ),
            history_sql(f),
        ),
{
    let head = "SELECT id, request_id, request_name, protocol, method, url, status_code, duration_ms, response_size_bytes, executed_at FROM history WHERE 1=1"@
        + method_clause(f) + status_min_clause(f) + status_max_clause(f) + url_clause(f);
    let count = decimal(
        if f.limit == 0 {
            50
        } else {
            f.limit as nat
        },
    );
    let tail = " ORDER BY executed_at DESC"@ + " LIMIT "@ + count;
    assert(limit_clause(f) =~= tail) by {
        reveal_strlit(" ORDER BY executed_at DESC");
        reveal_strlit(" LIMIT ");
        reveal_strlit(" ORDER BY executed_at DESC LIMIT ");
    }
    assert(history_sql(f) == head + limit_clause(f));
    assert((head + tail).subrange(head.len() as int, (head + tail).len() as int) =~= tail);
}

/// A change seen in the workspace directory.
#[derive(Debug, PartialEq, Eq)]
pub enum FileChangeEvent {
    Created(PathBuf),
    Modified(PathBuf),
    Deleted(PathBuf),
}

/// Persistent workbench tab layout record.
#[derive(Debug, Clone, PartialEq)]
pub struct TabStateRecord {
    pub id: String,
    pub workspace_id: String,
    pub resource_id: ResourceId,
    pub tab_order: i32,
    pub is_pinned: bool,
    pub pane_id: Option<String>,
}

/// Workspace file watcher with debouncing and ignore rules for internal files.
/// Whether an event at `now` is processed, the last processed one being at
/// `last`: the time elapsed since then (none when the clock reads earlier)
/// must reach the debounce interval.
pub open spec fn event_processed(last: Option<u64>, debounce: u64, now: u64) -> bool {
    match last {
        Some(prev) => (if now >= prev { now - prev } else { 0 }) >= debounce,
        None => true,
    }
}

/// Two events that are both processed, one after the other, lie at least the
/// debounce interval apart.
pub proof fn law_processed_events_are_spaced(last: Option<u64>, debounce: u64, first: u64, second: u64)
    requires
        debounce > 0,
        event_processed(last, debounce, first),
        event_processed(Some(first), debounce, second),
    ensures
        second >= first + debounce,
{
}

pub struct WorkspaceWatcher {
    root_path: String,
    ignore_patterns: Vec<String>,
    last_event_ms: Option<u64>,
    debounce_ms: u64,
}

impl WorkspaceWatcher {
    pub closed spec fn root(self) -> Seq<char> {
        self.root_path@
    }

    pub closed spec fn patterns(self) -> Seq<Seq<char>> {
        self.ignore_patterns@.map_values(|s: String| s@)
    }

    /// When the last event was processed, in milliseconds.
    pub closed spec fn last_event(self) -> Option<u64> {
        self.last_event_ms
    }

    pub closed spec fn debounce(self) -> u64 {
        self.debounce_ms
    }

    /// Watches `root_path`, ignoring `.packetsmith`, `.git` and `.DS_Store`,
    /// with a 150 ms debounce.
    pub fn new(root_path: &str) -> (r: Self)
        ensures
            r.root() == root_path@,
            r.patterns() == seq![".packetsmith"@, ".git"@, ".DS_Store"@],
            r.last_event() is None,
            r.debounce() == 150,
    {
        let r = WorkspaceWatcher {
            root_path: root_path.to_owned(),
            ignore_patterns: vec![".packetsmith".to_owned(), ".git".to_owned(), ".DS_Store".to_owned()],
            last_event_ms: None,
            debounce_ms: 150,
        };
        assert(r.patterns() =~= seq![".packetsmith"@, ".git"@, ".DS_Store"@]);
        r
    }

    /// Whether a changed path holds one of the ignore patterns.
    pub fn should_ignore(&self, path: &str) -> (r: bool)
        ensures
            r == exists|i: int|
                0 <= i < self.patterns().len() && contains_seq(path@, #[trigger] self.patterns()[i]),
    {
        let p = chars_of(path);
        let mut i: usize = 0;
        while i < self.ignore_patterns.len()
            invariant
                i <= self.ignore_patterns.len(),
                p@ == path@,
                self.patterns().len() == self.ignore_patterns@.len(),
                forall|k: int| 0 <= k < i ==> !contains_seq(path@, #[trigger] self.patterns()[k]),
            decreases self.ignore_patterns.len() - i,
        {
            let pat = chars_of(self.ignore_patterns[i].as_str());
            proof {
                assert(self.patterns()[i as int] == self.ignore_patterns@[i as int]@);
            }
            if contains(&p, &pat) {
                return true;
            }
            i = i + 1;
        }
        false
    }

    /// Whether an event at `now_ms` is processed: unless one was processed
    /// less than the debounce interval before, it is, and becomes the last.
    pub fn should_process_event(&mut self, now_ms: u64) -> (r: bool)
        ensures
            r == event_processed(old(self).last_event(), old(self).debounce(), now_ms),
            final(self).last_event() == if r {
                Some(now_ms)
            } else {
                old(self).last_event()
            },
            final(self).root() == old(self).root(),
            final(self).patterns() == old(self).patterns(),
            final(self).debounce() == old(self).debounce(),
    {
        match self.last_event_ms {
            Some(prev) => {
                let elapsed = if now_ms >= prev {
                    now_ms - prev
                } else {
                    0
                };
                if elapsed < self.debounce_ms {
                    return false;
                }
            },
            None => {},
        }
        self.last_event_ms = Some(now_ms);
        true
    }

    /// Whether an outside modification hits a resource with unsaved changes.
    pub fn is_conflict(&self, dirty_resource_paths: &Vec<String>, modified_path: &str) -> (r: bool)
        ensures
            r == exists|i: int|
                0 <= i < dirty_resource_paths@.len() && (#[trigger] dirty_resource_paths@[i])@
                    == modified_path@,
    {
        let mut i: usize = 0;
        while i < dirty_resource_paths.len()
            invariant
                i <= dirty_resource_paths.len(),
                forall|k: int| 0 <= k < i ==> (#[trigger] dirty_resource_paths@[k])@ != modified_path@,
            decreases dirty_resource_paths.len() - i,
        {
            if str_eq(dirty_resource_paths[i].as_str(), modified_path) {
                return true;
            }
            i = i + 1;
        }
        false
    }

    pub fn root_path(&self) -> (r: &str)
        ensures
            r@ == self.root(),
    {
        self.root_path.as_str()
    }
}

} // verus!
