//! How collections live on disk: the names resource files get, how a scan of
//! the collections directory reads each entry and where it attaches the
//! resources it finds, and how Quick Open ranks requests by name and URL.
use vstd::prelude::*;
use crate::domain::ResourceId;
use crate::text::{
    chars_of, contains, contains_seq, decimal, ends_with, is_prefix_seq, is_suffix_seq,
    lemma_seq_le_antisymmetric, lemma_seq_le_total, lemma_seq_le_transitive, lowercase, push_decimal,
    seq_eq, seq_le, starts_with, chars_le, to_lowercase, trim, trim_seq,
};
use crate::workspace::{
    ancestor, slug, slugify, validate_folder_hierarchy, WorkspaceError, COLLECTION_EXT, FOLDER_EXT,
    REQUEST_EXT,
};

verus! {

/// File extension of saved response examples.
pub const EXAMPLE_EXT: &'static str = ".example.yaml";

/// Suffix of the directory that holds a request's examples.
pub const EXAMPLES_DIR_SUFFIX: &'static str = ".examples";

/// Trash directory, relative to the workspace root.
pub const TRASH_DIR_REL: &'static str = ".packetsmith/trash";

/// The container a request or folder belongs to.
#[derive(Debug, Clone, Copy, PartialEq, Eq, Structural, Hash)]
pub enum ResourceParent {
    Collection(ResourceId),
    Folder(ResourceId),
}

/// Where a resource found at a place of the tree attaches: to the folder
/// when there is one, else to the collection, else nowhere.
pub open spec fn parent_of(collection: Option<ResourceId>, folder: Option<ResourceId>) -> Option<ResourceParent> {
    match folder {
        Some(f) => Some(ResourceParent::Folder(f)),
        None => match collection {
            Some(c) => Some(ResourceParent::Collection(c)),
            None => None,
        },
    }
}

/// The parent of a request scanned inside `collection` and `folder`, and of
/// a folder document with collection `collection` and parent `folder`.
pub fn resource_parent(collection: Option<ResourceId>, folder: Option<ResourceId>) -> (p: Option<ResourceParent>)
    ensures
        p == parent_of(collection, folder),
{
    match folder {
        Some(f) => Some(ResourceParent::Folder(f)),
        None => match collection {
            Some(c) => Some(ResourceParent::Collection(c)),
            None => None,
        },
    }
}

/// The file name a resource named `name` is saved under: its slug, then the
/// extension of its kind, so that a name always gives the same file.
pub fn resource_file_name(name: &str, ext: &str) -> (s: String)
    ensures
        s@ == slug(name@) + ext@,
{
    let mut s = slugify(name);
    s.push_str(ext);
    s
}

/// The slug tried at `attempt` when looking for a free file name: the base
/// slug first, then the base with `-1`, `-2`, ... appended.
pub open spec fn numbered_slug(base: Seq<char>, attempt: nat) -> Seq<char> {
    if attempt == 0 {
        base
    } else {
        base + "-"@ + decimal(attempt)
    }
}

pub fn candidate_slug(base: &str, attempt: u64) -> (s: String)
    ensures
        s@ == numbered_slug(base@, attempt as nat),
{
    let mut s = base.to_owned();
    if attempt > 0 {
        let dash = "-";
        proof {
            reveal_strlit("-");
        }
        s.push_str(dash);
        push_decimal(&mut s, attempt);
    }
    s
}

// ---------------------------------------------------------------------------
// Scanning the collections directory
// ---------------------------------------------------------------------------

/// What an entry of a scanned directory is, by its name and kind.
#[derive(Debug, Clone, Copy, PartialEq, Eq, Structural)]
pub enum ScanEntry {
    CollectionFile,
    FolderFile,
    RequestFile,
    ExampleFile,
    OtherFile,
    ExamplesDir,
    HiddenDir,
    Subdir,
}

pub open spec fn entry_kind(name: Seq<char>, is_dir: bool) -> ScanEntry {
    if is_dir {
        if is_suffix_seq(EXAMPLES_DIR_SUFFIX@, name) {
            ScanEntry::ExamplesDir
        } else if name.len() > 0 && name[0] == '.' {
            ScanEntry::HiddenDir
        } else {
            ScanEntry::Subdir
        }
    } else if is_suffix_seq(COLLECTION_EXT@, name) {
        ScanEntry::CollectionFile
    } else if is_suffix_seq(FOLDER_EXT@, name) {
        ScanEntry::FolderFile
    } else if is_suffix_seq(REQUEST_EXT@, name) {
        ScanEntry::RequestFile
    } else if is_suffix_seq(EXAMPLE_EXT@, name) {
        ScanEntry::ExampleFile
    } else {
        ScanEntry::OtherFile
    }
}

/// Classifies a directory entry by its file name and whether it is a directory.
pub fn classify_entry(name: &str, is_dir: bool) -> (e: ScanEntry)
    ensures
        e == entry_kind(name@, is_dir),
{
    let n = chars_of(name);
    if is_dir {
        let suffix = chars_of(EXAMPLES_DIR_SUFFIX);
        if ends_with(&n, &suffix) {
            ScanEntry::ExamplesDir
        } else if n.len() > 0 && n[0] == '.' {
            ScanEntry::HiddenDir
        } else {
            ScanEntry::Subdir
        }
    } else if ends_with(&n, &chars_of(COLLECTION_EXT)) {
        ScanEntry::CollectionFile
    } else if ends_with(&n, &chars_of(FOLDER_EXT)) {
        ScanEntry::FolderFile
    } else if ends_with(&n, &chars_of(REQUEST_EXT)) {
        ScanEntry::RequestFile
    } else if ends_with(&n, &chars_of(EXAMPLE_EXT)) {
        ScanEntry::ExampleFile
    } else {
        ScanEntry::OtherFile
    }
}

/// Whether a scan reads the files of a directory or, after them, its
/// subdirectories.
#[derive(Debug, Clone, Copy, PartialEq, Eq, Structural)]
pub enum ScanPhase {
    Files,
    Subdirs,
}

/// Where a scan stands in one directory: the collection and folder the
/// directory belongs to, and which pass over its entries is running.
#[derive(Debug, Clone, Copy, PartialEq, Eq, Structural)]
pub struct ScanState {
    pub collection: Option<ResourceId>,
    pub folder: Option<ResourceId>,
    pub phase: ScanPhase,
}

/// The manifest that names a subdirectory.
#[derive(Debug, Clone, Copy, PartialEq, Eq, Structural)]
pub enum ManifestKind {
    Collection,
    Folder,
}

/// What to do with an entry.
#[derive(Debug, Clone, Copy, PartialEq, Eq, Structural)]
pub enum ScanAction {
    /// Parse the collection document and index it with its path.
    IndexCollection,
    /// Parse the folder document and index it; its parent is
    /// `resource_parent(Some(collection_id), parent_id)` of the document.
    IndexFolder,
    /// Parse the request document and index it under this parent.
    IndexRequest(Option<ResourceParent>),
    /// Parse the response example and index it with its path.
    IndexExample,
    /// A directory: visited after the files of this one.
    Defer,
    /// An examples directory: index each file in it that ends in the
    /// example extension.
    ScanExamples,
    /// Look in the subdirectory for the first entry ending in this
    /// manifest's extension, read its id, and scan the subdirectory with
    /// `enter_subdir`.
    FindManifest(ManifestKind),
    /// Nothing to do.
    Skip,
}

pub open spec fn step_action(state: ScanState, entry: ScanEntry) -> ScanAction {
    match state.phase {
        ScanPhase::Files => match entry {
            ScanEntry::CollectionFile => ScanAction::IndexCollection,
            ScanEntry::FolderFile => ScanAction::IndexFolder,
            ScanEntry::RequestFile => ScanAction::IndexRequest(parent_of(state.collection, state.folder)),
            ScanEntry::ExampleFile => ScanAction::IndexExample,
            ScanEntry::OtherFile => ScanAction::Skip,
            _ => ScanAction::Defer,
        },
        ScanPhase::Subdirs => match entry {
            ScanEntry::ExamplesDir => ScanAction::ScanExamples,
            ScanEntry::Subdir => if state.collection is None {
                ScanAction::FindManifest(ManifestKind::Collection)
            } else {
                ScanAction::FindManifest(ManifestKind::Folder)
            },
            _ => ScanAction::Skip,
        },
    }
}

impl ScanState {
    /// The state a scan of the collections directory starts in.
    pub fn root() -> (s: Self)
        ensures
            s == (ScanState { collection: None, folder: None, phase: ScanPhase::Files }),
    {
        ScanState { collection: None, folder: None, phase: ScanPhase::Files }
    }

    /// The same directory, once its files are read.
    pub fn subdirs(self) -> (s: Self)
        ensures
            s == (ScanState { phase: ScanPhase::Subdirs, ..self }),
    {
        ScanState { phase: ScanPhase::Subdirs, ..self }
    }
}

/// Decides what the scan does with one entry of the directory it stands in.
/// Files are indexed in the first pass (a request attaches to the folder of
/// the directory, else to its collection) and directories deferred; in the
/// second pass examples directories are read, hidden ones skipped, and any
/// other subdirectory is entered after finding its manifest: a collection's
/// at the top, a folder's inside a collection.
pub fn scan_step(state: ScanState, entry: ScanEntry) -> (a: ScanAction)
    ensures
        a == step_action(state, entry),
{
    match state.phase {
        ScanPhase::Files => match entry {
            ScanEntry::CollectionFile => ScanAction::IndexCollection,
            ScanEntry::FolderFile => ScanAction::IndexFolder,
            ScanEntry::RequestFile => ScanAction::IndexRequest(resource_parent(state.collection, state.folder)),
            ScanEntry::ExampleFile => ScanAction::IndexExample,
            ScanEntry::OtherFile => ScanAction::Skip,
            _ => ScanAction::Defer,
        },
        ScanPhase::Subdirs => match entry {
            ScanEntry::ExamplesDir => ScanAction::ScanExamples,
            ScanEntry::Subdir => if state.collection.is_none() {
                ScanAction::FindManifest(ManifestKind::Collection)
            } else {
                ScanAction::FindManifest(ManifestKind::Folder)
            },
            _ => ScanAction::Skip,
        },
    }
}

/// The state a subdirectory is scanned in, given the id of the manifest
/// found in it: at the top the subdirectory is a collection (with no
/// folder); inside a collection it is a folder of that collection. A
/// subdirectory without its manifest keeps the collection and has no folder.
pub fn enter_subdir(state: ScanState, found: Option<ResourceId>) -> (s: ScanState)
    ensures
        s.phase == ScanPhase::Files,
        state.collection is None ==> s.collection == found && s.folder is None,
        state.collection is Some ==> s.collection == state.collection && s.folder == found,
{
    if state.collection.is_none() {
        ScanState { collection: found, folder: None, phase: ScanPhase::Files }
    } else {
        ScanState { collection: state.collection, folder: found, phase: ScanPhase::Files }
    }
}

// ---------------------------------------------------------------------------
// Quick Open
// ---------------------------------------------------------------------------

/// A request offered to Quick Open: its name, and its URL where its protocol
/// has one.
pub struct QuickOpenCandidate {
    pub name: String,
    pub url: Option<String>,
}

/// The URL text a candidate is searched in: empty when it has none.
pub open spec fn url_text(url: Option<String>) -> Seq<char> {
    match url {
        Some(u) => u@,
        None => Seq::empty(),
    }
}

/// Whether the lowercased query occurs in the lowercased name or URL.
pub open spec fn qo_matches(name: Seq<char>, url: Seq<char>, query: Seq<char>) -> bool {
    contains_seq(lowercase(name), lowercase(query)) || contains_seq(lowercase(url), lowercase(query))
}

/// The rank of a match: 100 when the name starts with the query, else 50
/// when it holds it; 30 more when the URL holds it (all lowercased).
pub open spec fn qo_score(name: Seq<char>, url: Seq<char>, query: Seq<char>) -> nat {
    let n = lowercase(name);
    let q = lowercase(query);
    (if is_prefix_seq(q, n) {
        100nat
    } else if contains_seq(n, q) {
        50nat
    } else {
        0nat
    }) + (if contains_seq(lowercase(url), q) {
        30nat
    } else {
        0nat
    })
}

/// Candidate `i` comes before candidate `j`: a higher score first, then the
/// name in the order of `str::cmp`, then the earlier candidate.
pub open spec fn qo_before(c: Seq<QuickOpenCandidate>, query: Seq<char>, i: int, j: int) -> bool {
    let si = qo_score(c[i].name@, url_text(c[i].url), query);
    let sj = qo_score(c[j].name@, url_text(c[j].url), query);
    ||| si > sj
    ||| si == sj && c[i].name@ != c[j].name@ && seq_le(c[i].name@, c[j].name@)
    ||| si == sj && c[i].name@ == c[j].name@ && i < j
}

pub open spec fn qo_match_at(c: Seq<QuickOpenCandidate>, query: Seq<char>, i: int) -> bool {
    0 <= i < c.len() && qo_matches(c[i].name@, url_text(c[i].url), query)
}

proof fn lemma_qo_before_transitive(c: Seq<QuickOpenCandidate>, q: Seq<char>, i: int, j: int, k: int)
    requires
        qo_before(c, q, i, j),
        qo_before(c, q, j, k),
    ensures
        qo_before(c, q, i, k),
{
    let (a, b, d) = (c[i].name@, c[j].name@, c[k].name@);
    if seq_le(a, b) && seq_le(b, d) {
        lemma_seq_le_transitive(a, b, d);
        if a == d && a != b {
            lemma_seq_le_antisymmetric(a, b);
        }
    }
}

proof fn lemma_qo_before_total(c: Seq<QuickOpenCandidate>, q: Seq<char>, i: int, j: int)
    requires
        i != j,
    ensures
        qo_before(c, q, i, j) || qo_before(c, q, j, i),
{
    lemma_seq_le_total(c[i].name@, c[j].name@);
}

/// The lowercased URL of a candidate, empty when it has none.
fn lowered_url(url: &Option<String>) -> (v: Vec<char>)
    ensures
        v@ == lowercase(url_text(*url)),
{
    match url {
        Some(x) => chars_of(&to_lowercase(x.as_str())),
        None => {
            let e = "";
            proof {
                reveal_strlit("");
                assert(e@ =~= url_text(*url));
            }
            chars_of(&to_lowercase(e))
        },
    }
}

/// The score Quick Open gives a request with this name and URL.
pub fn quick_open_score(name: &str, url: &Option<String>, query: &str) -> (s: u64)
    ensures
        s == qo_score(name@, url_text(*url), query@),
{
    let n = chars_of(&to_lowercase(name));
    let q = chars_of(&to_lowercase(query));
    let u = lowered_url(url);
    let mut score: u64 = 0;
    if starts_with(&n, &q) {
        score = 100;
    } else if contains(&n, &q) {
        score = 50;
    }
    if contains(&u, &q) {
        score = score + 30;
    }
    score
}

/// Whether request `i` comes before request `j` in Quick Open's ranking.
fn ranks_before(c: &Vec<QuickOpenCandidate>, scores: &Vec<u64>, query: &str, i: usize, j: usize) -> (r: bool)
    requires
        i < c.len(),
        j < c.len(),
        scores.len() == c.len(),
        forall|k: int| 0 <= k < c.len() ==> #[trigger] scores@[k] == qo_score(c@[k].name@, url_text(c@[k].url), query@),
    ensures
        r == qo_before(c@, query@, i as int, j as int),
{
    if scores[i] != scores[j] {
        return scores[i] > scores[j];
    }
    let a = chars_of(c[i].name.as_str());
    let b = chars_of(c[j].name.as_str());
    if seq_eq(&a, &b) {
        i < j
    } else {
        chars_le(&a, &b)
    }
}

/// Searches requests by name and URL: those whose lowercased name or URL
/// holds the lowercased query, best first (`qo_before`), at most `limit` of
/// them; none for a query of only whitespace. Returns their indices.
pub fn quick_open(candidates: &Vec<QuickOpenCandidate>, query: &str, limit: usize) -> (r: Vec<usize>)
    ensures
        trim_seq(query@).len() == 0 ==> r@.len() == 0,
        trim_seq(query@).len() != 0 ==> {
            &&& r@.len() <= limit
            &&& forall|k: int| 0 <= k < r@.len() ==> qo_match_at(candidates@, query@, #[trigger] r@[k] as int)
            &&& forall|a: int, b: int| 0 <= a < b < r@.len() ==> qo_before(candidates@, query@, r@[a] as int, r@[b] as int)
            &&& forall|j: int| #![trigger qo_match_at(candidates@, query@, j)]
                qo_match_at(candidates@, query@, j) && !r@.contains(j as usize) ==> r@.len() == limit
                    && forall|k: int| 0 <= k < r@.len() ==> qo_before(candidates@, query@, #[trigger] r@[k] as int, j)
        },
{
    let mut out: Vec<usize> = Vec::new();
    let trimmed = chars_of(trim(query).as_str());
    if trimmed.len() == 0 {
        proof {
            assert(trimmed@.len() == 0);
        }
        return out;
    }
    assert(trimmed@.len() != 0);
    let n = candidates.len();
    let mut scores: Vec<u64> = Vec::new();
    let mut matched: Vec<bool> = Vec::new();
    let mut chosen: Vec<bool> = Vec::new();
    let mut i: usize = 0;
    while i < n
        invariant
            i <= n,
            n == candidates.len(),
            scores.len() == i,
            matched.len() == i,
            chosen.len() == i,
            forall|k: int| 0 <= k < i ==> #[trigger] scores@[k] == qo_score(candidates@[k].name@, url_text(candidates@[k].url), query@),
            forall|k: int| 0 <= k < i ==> #[trigger] matched@[k] == qo_match_at(candidates@, query@, k),
            forall|k: int| 0 <= k < i ==> !#[trigger] chosen@[k],
        decreases n - i,
    {
        let c = &candidates[i];
        let s = quick_open_score(c.name.as_str(), &c.url, query);
        let q = chars_of(&to_lowercase(query));
        let nm = chars_of(&to_lowercase(c.name.as_str()));
        let u = lowered_url(&c.url);
        let m = contains(&nm, &q) || contains(&u, &q);
        scores.push(s);
        matched.push(m);
        chosen.push(false);
        i = i + 1;
    }
    while out.len() < limit
        invariant
            n == candidates.len(),
            scores.len() == n,
            matched.len() == n,
            chosen.len() == n,
            trim_seq(query@).len() != 0,
            out@.len() <= limit,
            forall|k: int| 0 <= k < n ==> #[trigger] scores@[k] == qo_score(candidates@[k].name@, url_text(candidates@[k].url), query@),
            forall|k: int| 0 <= k < n ==> #[trigger] matched@[k] == qo_match_at(candidates@, query@, k),
            forall|k: int| 0 <= k < n ==> (#[trigger] chosen@[k] <==> out@.contains(k as usize)),
            forall|k: int| 0 <= k < out@.len() ==> qo_match_at(candidates@, query@, #[trigger] out@[k] as int),
            forall|a: int, b: int| 0 <= a < b < out@.len() ==> qo_before(candidates@, query@, out@[a] as int, out@[b] as int),
            forall|j: int| #![trigger qo_match_at(candidates@, query@, j)]
                qo_match_at(candidates@, query@, j) && !out@.contains(j as usize)
                    ==> forall|k: int| 0 <= k < out@.len() ==> qo_before(candidates@, query@, #[trigger] out@[k] as int, j),
        decreases limit - out.len(),
    {
        let mut best: Option<usize> = None;
        let mut j: usize = 0;
        while j < n
            invariant
                j <= n,
                n == candidates.len(),
                scores.len() == n,
                matched.len() == n,
                chosen.len() == n,
                forall|k: int| 0 <= k < n ==> #[trigger] scores@[k] == qo_score(candidates@[k].name@, url_text(candidates@[k].url), query@),
                forall|k: int| 0 <= k < n ==> #[trigger] matched@[k] == qo_match_at(candidates@, query@, k),
                best matches Some(b) ==> b < j && matched@[b as int] && !chosen@[b as int],
                best is None ==> forall|k: int| 0 <= k < j ==> !(#[trigger] matched@[k] && !chosen@[k]),
                best matches Some(b) ==> forall|k: int| 0 <= k < j && k != b && #[trigger] matched@[k] && !chosen@[k]
                    ==> qo_before(candidates@, query@, b as int, k),
            decreases n - j,
        {
            if matched[j] && !chosen[j] {
                match best {
                    None => {
                        best = Some(j);
                    },
                    Some(b) => {
                        if ranks_before(candidates, &scores, query, j, b) {
                            proof {
                                assert forall|k: int| 0 <= k < j + 1 && k != j && #[trigger] matched@[k] && !chosen@[k]
                                    implies qo_before(candidates@, query@, j as int, k) by {
                                    if k != b {
                                        lemma_qo_before_transitive(candidates@, query@, j as int, b as int, k);
                                    }
                                }
                            }
                            best = Some(j);
                        } else {
                            proof {
                                lemma_qo_before_total(candidates@, query@, j as int, b as int);
                            }
                        }
                    },
                }
            }
            j = j + 1;
        }
        match best {
            None => {
                proof {
                    assert forall|j: int| #![trigger qo_match_at(candidates@, query@, j)]
                        qo_match_at(candidates@, query@, j) implies out@.contains(j as usize) by {
                        assert(matched@[j]);
                        assert(chosen@[j]);
                    }
                }
                return out;
            },
            Some(b) => {
                let ghost before = out@;
                assert(qo_match_at(candidates@, query@, b as int)) by {
                    assert(matched@[b as int]);
                }
                out.push(b);
                chosen.set(b, true);
                proof {
                    assert forall|k: int| 0 <= k < n implies (#[trigger] chosen@[k] <==> out@.contains(k as usize)) by {
                        if k == b {
                            assert(out@[before.len() as int] == b);
                        } else {
                            if out@.contains(k as usize) {
                                let t = choose|t: int| 0 <= t < out@.len() && out@[t] == k as usize;
                                assert(before[t] == k as usize);
                            }
                            if before.contains(k as usize) {
                                let t = choose|t: int| 0 <= t < before.len() && before[t] == k as usize;
                                assert(out@[t] == k as usize);
                            }
                        }
                    }
                    assert(!before.contains(b));
                    assert forall|a: int, c: int| 0 <= a < c < out@.len() implies qo_before(candidates@, query@, out@[a] as int, out@[c] as int) by {
                        if c == before.len() {
                            assert(qo_match_at(candidates@, query@, b as int));
                            assert(before[a] == out@[a]);
                        } else {
                            assert(before[a] == out@[a]);
                            assert(before[c] == out@[c]);
                        }
                    }
                    assert forall|j: int| #![trigger qo_match_at(candidates@, query@, j)]
                        qo_match_at(candidates@, query@, j) && !out@.contains(j as usize)
                            implies forall|k: int| 0 <= k < out@.len() ==> qo_before(candidates@, query@, #[trigger] out@[k] as int, j) by {
                        assert(out@[before.len() as int] == b);
                        assert(out@.contains(b));
                        assert(j != b);
                        assert(!before.contains(j as usize)) by {
                            if before.contains(j as usize) {
                                let t = choose|t: int| 0 <= t < before.len() && before[t] == j as usize;
                                assert(out@[t] == j as usize);
                            }
                        }
                        assert(matched@[j] && !chosen@[j]);
                        assert forall|k: int| 0 <= k < out@.len() implies qo_before(candidates@, query@, #[trigger] out@[k] as int, j) by {
                            if k < before.len() {
                                assert(before[k] == out@[k]);
                            }
                        }
                    }
                    assert forall|k: int| 0 <= k < out@.len() implies qo_match_at(candidates@, query@, #[trigger] out@[k] as int) by {
                        if k < before.len() {
                            assert(before[k] == out@[k]);
                        }
                    }
                }
            },
        }
    }
    out
}

// ---------------------------------------------------------------------------
// Breadcrumbs
// ---------------------------------------------------------------------------

/// A collection or request: its id and name.
pub struct NamedResource {
    pub id: ResourceId,
    pub name: String,
}

/// A folder: its id, name, parent folder (if nested) and collection.
pub struct FolderInfo {
    pub id: ResourceId,
    pub name: String,
    pub parent: Option<ResourceId>,
    pub collection: ResourceId,
}

/// A request: its id, name and container.
pub struct RequestInfo {
    pub id: ResourceId,
    pub name: String,
    pub parent: Option<ResourceParent>,
}

#[derive(Debug, Clone, Copy, PartialEq, Eq, Structural)]
pub enum CrumbKind {
    Collection,
    Folder,
    Request,
}

/// One step of the path from a collection down to a resource.
#[derive(Debug, Clone, PartialEq, Eq)]
pub struct BreadcrumbItem {
    pub id: ResourceId,
    pub name: String,
    pub kind: CrumbKind,
}

pub open spec fn crumb_views(v: Seq<BreadcrumbItem>) -> Seq<(ResourceId, Seq<char>, CrumbKind)> {
    v.map_values(|c: BreadcrumbItem| (c.id, c.name@, c.kind))
}

/// The first index holding `id`.
pub open spec fn first_index(ids: Seq<ResourceId>, id: ResourceId) -> Option<int>
    decreases ids.len(),
{
    if ids.len() == 0 {
        None
    } else if ids[0] == id {
        Some(0)
    } else {
        match first_index(ids.drop_first(), id) {
            Some(i) => Some(i + 1),
            None => None,
        }
    }
}

pub open spec fn named_ids(v: Seq<NamedResource>) -> Seq<ResourceId> {
    v.map_values(|r: NamedResource| r.id)
}

pub open spec fn folder_ids(v: Seq<FolderInfo>) -> Seq<ResourceId> {
    v.map_values(|f: FolderInfo| f.id)
}

pub open spec fn request_ids(v: Seq<RequestInfo>) -> Seq<ResourceId> {
    v.map_values(|r: RequestInfo| r.id)
}

/// The folders above `parent`, nearest first, following parent links while
/// they name a known folder; at most `fuel` of them.
pub open spec fn ancestors(fs: Seq<FolderInfo>, parent: Option<ResourceId>, fuel: nat) -> Seq<int>
    decreases fuel,
{
    match parent {
        None => Seq::empty(),
        Some(p) => match first_index(folder_ids(fs), p) {
            None => Seq::empty(),
            Some(i) => if fuel == 0 {
                Seq::empty()
            } else {
                seq![i] + ancestors(fs, fs[i].parent, (fuel - 1) as nat)
            },
        },
    }
}

/// The parent links from `parent` up reach a top-level folder (or an unknown
/// id) within `fuel` steps: they hold no cycle.
pub open spec fn ends_within(fs: Seq<FolderInfo>, parent: Option<ResourceId>, fuel: nat) -> bool
    decreases fuel,
{
    match parent {
        None => true,
        Some(p) => match first_index(folder_ids(fs), p) {
            None => true,
            Some(i) => fuel > 0 && ends_within(fs, fs[i].parent, (fuel - 1) as nat),
        },
    }
}

pub open spec fn folder_crumb(f: FolderInfo) -> (ResourceId, Seq<char>, CrumbKind) {
    (f.id, f.name@, CrumbKind::Folder)
}

/// The path to folder `i`, from its collection (when known) down to it.
pub open spec fn folder_path(cs: Seq<NamedResource>, fs: Seq<FolderInfo>, i: int) -> Seq<(ResourceId, Seq<char>, CrumbKind)> {
    let up = (seq![i] + ancestors(fs, fs[i].parent, fs.len())).map_values(|k: int| folder_crumb(fs[k]));
    let with_col = match first_index(named_ids(cs), fs[i].collection) {
        Some(c) => up.push((cs[c].id, cs[c].name@, CrumbKind::Collection)),
        None => up,
    };
    with_col.reverse()
}

/// The path to request `r`: below the path of the folder holding it (a
/// collection or request the folder id names stands in its place), or below
/// its collection; `fuel` bounds how many requests are passed through.
pub open spec fn request_path(
    cs: Seq<NamedResource>,
    fs: Seq<FolderInfo>,
    rs: Seq<RequestInfo>,
    r: int,
    fuel: nat,
) -> Seq<(ResourceId, Seq<char>, CrumbKind)>
    decreases fuel,
{
    let me = (rs[r].id, rs[r].name@, CrumbKind::Request);
    match rs[r].parent {
        Some(ResourceParent::Folder(f)) => match first_index(named_ids(cs), f) {
            Some(c) => seq![(cs[c].id, cs[c].name@, CrumbKind::Collection), me],
            None => match first_index(folder_ids(fs), f) {
                Some(i) => folder_path(cs, fs, i).push(me),
                None => match first_index(request_ids(rs), f) {
                    Some(r2) => if fuel == 0 {
                        seq![me]
                    } else {
                        request_path(cs, fs, rs, r2, (fuel - 1) as nat).push(me)
                    },
                    None => seq![me],
                },
            },
        },
        Some(ResourceParent::Collection(c)) => match first_index(named_ids(cs), c) {
            Some(k) => seq![(cs[k].id, cs[k].name@, CrumbKind::Collection), me],
            None => seq![me],
        },
        None => seq![me],
    }
}

/// Building the path of request `r` ends: the folder parent links it meets
/// hold no cycle, and the requests it passes through, fewer than `fuel`,
/// lead to no cycle either.
pub open spec fn request_path_ends(
    cs: Seq<NamedResource>,
    fs: Seq<FolderInfo>,
    rs: Seq<RequestInfo>,
    r: int,
    fuel: nat,
) -> bool
    decreases fuel,
{
    match rs[r].parent {
        Some(ResourceParent::Folder(f)) => match first_index(named_ids(cs), f) {
            Some(_) => true,
            None => match first_index(folder_ids(fs), f) {
                Some(i) => ends_within(fs, fs[i].parent, fs.len()),
                None => match first_index(request_ids(rs), f) {
                    Some(r2) => fuel > 0 && request_path_ends(cs, fs, rs, r2, (fuel - 1) as nat),
                    None => true,
                },
            },
        },
        _ => true,
    }
}

/// The breadcrumbs of a resource: a collection alone; a folder below its
/// parent folders and collection; a request below its folder's path or its
/// collection. Nothing for an unknown id.
pub open spec fn breadcrumbs_of(
    cs: Seq<NamedResource>,
    fs: Seq<FolderInfo>,
    rs: Seq<RequestInfo>,
    target: ResourceId,
) -> Seq<(ResourceId, Seq<char>, CrumbKind)> {
    match first_index(named_ids(cs), target) {
        Some(c) => seq![(cs[c].id, cs[c].name@, CrumbKind::Collection)],
        None => match first_index(folder_ids(fs), target) {
            Some(i) => folder_path(cs, fs, i),
            None => match first_index(request_ids(rs), target) {
                Some(r) => request_path(cs, fs, rs, r, rs.len()),
                None => Seq::empty(),
            },
        },
    }
}

/// Building the breadcrumbs of `target` ends: no cycle among the parent
/// links it follows.
pub open spec fn crumbs_end(cs: Seq<NamedResource>, fs: Seq<FolderInfo>, rs: Seq<RequestInfo>, target: ResourceId) -> bool {
    &&& (first_index(folder_ids(fs), target) matches Some(i) ==> ends_within(fs, fs[i].parent, fs.len()))
    &&& (first_index(request_ids(rs), target) matches Some(r) ==> request_path_ends(cs, fs, rs, r, rs.len()))
}

proof fn lemma_first_index_none(ids: Seq<ResourceId>, id: ResourceId)
    requires
        forall|j: int| 0 <= j < ids.len() ==> ids[j] != id,
    ensures
        first_index(ids, id) is None,
    decreases ids.len(),
{
    if ids.len() > 0 {
        lemma_first_index_none(ids.drop_first(), id);
    }
}

proof fn lemma_first_index_found(ids: Seq<ResourceId>, id: ResourceId, k: int)
    requires
        0 <= k < ids.len(),
        ids[k] == id,
        forall|j: int| 0 <= j < k ==> ids[j] != id,
    ensures
        first_index(ids, id) == Some(k),
    decreases k,
{
    if k > 0 {
        lemma_first_index_found(ids.drop_first(), id, k - 1);
    }
}

fn find_named(v: &Vec<NamedResource>, id: ResourceId) -> (r: Option<usize>)
    ensures
        r matches Some(i) ==> first_index(named_ids(v@), id) == Some(i as int),
        r is None ==> first_index(named_ids(v@), id) is None,
{
    let mut i: usize = 0;
    while i < v.len()
        invariant
            i <= v.len(),
            forall|j: int| 0 <= j < i ==> (#[trigger] named_ids(v@)[j]) != id,
        decreases v.len() - i,
    {
        if v[i].id == id {
            proof {
                lemma_first_index_found(named_ids(v@), id, i as int);
            }
            return Some(i);
        }
        i = i + 1;
    }
    proof {
        lemma_first_index_none(named_ids(v@), id);
    }
    None
}

fn find_folder(v: &Vec<FolderInfo>, id: ResourceId) -> (r: Option<usize>)
    ensures
        r matches Some(i) ==> first_index(folder_ids(v@), id) == Some(i as int),
        r is None ==> first_index(folder_ids(v@), id) is None,
{
    let mut i: usize = 0;
    while i < v.len()
        invariant
            i <= v.len(),
            forall|j: int| 0 <= j < i ==> (#[trigger] folder_ids(v@)[j]) != id,
        decreases v.len() - i,
    {
        if v[i].id == id {
            proof {
                lemma_first_index_found(folder_ids(v@), id, i as int);
            }
            return Some(i);
        }
        i = i + 1;
    }
    proof {
        lemma_first_index_none(folder_ids(v@), id);
    }
    None
}

fn find_request(v: &Vec<RequestInfo>, id: ResourceId) -> (r: Option<usize>)
    ensures
        r matches Some(i) ==> first_index(request_ids(v@), id) == Some(i as int),
        r is None ==> first_index(request_ids(v@), id) is None,
{
    let mut i: usize = 0;
    while i < v.len()
        invariant
            i <= v.len(),
            forall|j: int| 0 <= j < i ==> (#[trigger] request_ids(v@)[j]) != id,
        decreases v.len() - i,
    {
        if v[i].id == id {
            proof {
                lemma_first_index_found(request_ids(v@), id, i as int);
            }
            return Some(i);
        }
        i = i + 1;
    }
    proof {
        lemma_first_index_none(request_ids(v@), id);
    }
    None
}

proof fn lemma_first_index_bound(ids: Seq<ResourceId>, id: ResourceId)
    ensures
        first_index(ids, id) matches Some(i) ==> 0 <= i < ids.len() && ids[i] == id,
    decreases ids.len(),
{
    if ids.len() > 0 {
        lemma_first_index_bound(ids.drop_first(), id);
    }
}

proof fn lemma_ancestors_bound(fs: Seq<FolderInfo>, parent: Option<ResourceId>, fuel: nat)
    ensures
        forall|k: int| 0 <= k < ancestors(fs, parent, fuel).len() ==> 0 <= #[trigger] ancestors(fs, parent, fuel)[k] < fs.len(),
    decreases fuel,
{
    match parent {
        None => {},
        Some(p) => {
            lemma_first_index_bound(folder_ids(fs), p);
            match first_index(folder_ids(fs), p) {
                None => {},
                Some(i) => {
                    if fuel > 0 {
                        lemma_ancestors_bound(fs, fs[i].parent, (fuel - 1) as nat);
                        let rest = ancestors(fs, fs[i].parent, (fuel - 1) as nat);
                        assert forall|k: int| 0 <= k < ancestors(fs, parent, fuel).len() implies 0 <= #[trigger] ancestors(fs, parent, fuel)[k] < fs.len() by {
                            if k > 0 {
                                assert(ancestors(fs, parent, fuel)[k] == rest[k - 1]);
                            }
                        }
                    }
                },
            }
        },
    }
}

fn crumb(id: ResourceId, name: &String, kind: CrumbKind) -> (c: BreadcrumbItem)
    ensures
        c.id == id && c.name@ == name@ && c.kind == kind,
{
    BreadcrumbItem { id, name: name.clone(), kind }
}

/// The path to folder `i`: its collection (when known), its parent folders
/// from the top, and the folder itself.
fn folder_breadcrumbs(cs: &Vec<NamedResource>, fs: &Vec<FolderInfo>, i: usize) -> (r: Vec<BreadcrumbItem>)
    requires
        i < fs.len(),
        ends_within(fs@, fs@[i as int].parent, fs@.len()),
    ensures
        crumb_views(r@) == folder_path(cs@, fs@, i as int),
{
    let ghost chain = seq![i as int] + ancestors(fs@, fs@[i as int].parent, fs@.len());
    let ghost ups = chain.map_values(|k: int| folder_crumb(fs@[k]));
    let mut up: Vec<BreadcrumbItem> = Vec::new();
    up.push(crumb(fs[i].id, &fs[i].name, CrumbKind::Folder));
    let mut current = fs[i].parent;
    let mut fuel: usize = fs.len();
    proof {
        lemma_ancestors_bound(fs@, fs@[i as int].parent, fs@.len());
        assert(crumb_views(up@) =~= ups.take(1));
        assert(chain.skip(1) =~= ancestors(fs@, fs@[i as int].parent, fs@.len()));
    }
    while current.is_some()
        invariant
            fuel <= fs.len(),
            1 <= up@.len() <= chain.len(),
            chain.skip(up@.len() as int) == ancestors(fs@, current, fuel as nat),
            ends_within(fs@, current, fuel as nat),
            crumb_views(up@) == ups.take(up@.len() as int),
            ups == chain.map_values(|k: int| folder_crumb(fs@[k])),
            forall|k: int| 0 <= k < chain.len() ==> 0 <= #[trigger] chain[k] < fs.len(),
        ensures
            chain.skip(up@.len() as int).len() == 0,
        decreases fuel,
    {
        let p = current.unwrap();
        match find_folder(fs, p) {
            None => {
                proof {
                    assert(ancestors(fs@, current, fuel as nat).len() == 0);
                }
                break;
            },
            Some(k) => {
                let ghost n = up@.len() as int;
                proof {
                    assert(fuel > 0);
                    assert(ancestors(fs@, current, fuel as nat) == seq![k as int] + ancestors(
                        fs@,
                        fs@[k as int].parent,
                        (fuel - 1) as nat,
                    ));
                    assert(chain.skip(n).len() > 0);
                    assert(chain.skip(n)[0] == k as int);
                    assert(chain[n] == k as int);
                    assert(chain.skip(n).drop_first() =~= chain.skip(n + 1));
                    assert(ups[n] == folder_crumb(fs@[k as int]));
                }
                up.push(crumb(fs[k].id, &fs[k].name, CrumbKind::Folder));
                proof {
                    assert(crumb_views(up@) =~= ups.take(n + 1));
                }
                current = fs[k].parent;
                fuel = fuel - 1;
            },
        }
    }
    proof {
        assert(chain.skip(up@.len() as int).len() == 0);
        assert(up@.len() == chain.len());
        assert(crumb_views(up@) =~= ups);
    }
    match find_named(cs, fs[i].collection) {
        Some(c) => {
            let ghost before = crumb_views(up@);
            proof {
                lemma_first_index_bound(named_ids(cs@), fs@[i as int].collection);
            }
            up.push(crumb(cs[c].id, &cs[c].name, CrumbKind::Collection));
            proof {
                assert(crumb_views(up@) =~= before.push((cs@[c as int].id, cs@[c as int].name@, CrumbKind::Collection)));
            }
        },
        None => {},
    }
    let ghost full = crumb_views(up@);
    let mut out: Vec<BreadcrumbItem> = Vec::new();
    let mut j: usize = up.len();
    while j > 0
        invariant
            j <= up@.len(),
            full == crumb_views(up@),
            crumb_views(out@) == full.reverse().take((up@.len() - j) as int),
        decreases j,
    {
        j = j - 1;
        let ghost before = crumb_views(out@);
        let ghost m = (up@.len() - 1 - j) as int;
        let item = crumb(up[j].id, &up[j].name, up[j].kind);
        out.push(item);
        proof {
            assert(full.reverse().len() == full.len());
            assert(full.reverse()[m] == full[j as int]);
            assert(full[j as int] == (up@[j as int].id, up@[j as int].name@, up@[j as int].kind));
            assert(full.reverse().take(m + 1) =~= full.reverse().take(m).push(full.reverse()[m]));
            assert(crumb_views(out@) =~= before.push((item.id, item.name@, item.kind)));
            assert(crumb_views(out@) =~= full.reverse().take((up@.len() - j) as int));
        }
    }
    proof {
        assert(crumb_views(out@) =~= full.reverse());
    }
    out
}

/// The path to request `r`, as `request_path` gives it.
fn request_breadcrumbs(
    cs: &Vec<NamedResource>,
    fs: &Vec<FolderInfo>,
    rs: &Vec<RequestInfo>,
    r: usize,
    fuel: usize,
) -> (v: Vec<BreadcrumbItem>)
    requires
        r < rs.len(),
        request_path_ends(cs@, fs@, rs@, r as int, fuel as nat),
    ensures
        crumb_views(v@) == request_path(cs@, fs@, rs@, r as int, fuel as nat),
    decreases fuel,
{
    let me = crumb(rs[r].id, &rs[r].name, CrumbKind::Request);
    let ghost mev = (rs@[r as int].id, rs@[r as int].name@, CrumbKind::Request);
    match rs[r].parent {
        Some(ResourceParent::Folder(f)) => {
            proof {
                lemma_first_index_bound(named_ids(cs@), f);
                lemma_first_index_bound(folder_ids(fs@), f);
                lemma_first_index_bound(request_ids(rs@), f);
            }
            match find_named(cs, f) {
                Some(c) => {
                    let v = vec![crumb(cs[c].id, &cs[c].name, CrumbKind::Collection), me];
                    assert(crumb_views(v@) =~= seq![(cs@[c as int].id, cs@[c as int].name@, CrumbKind::Collection), mev]);
                    v
                },
                None => match find_folder(fs, f) {
                    Some(i) => {
                        let mut v = folder_breadcrumbs(cs, fs, i);
                        let ghost before = crumb_views(v@);
                        v.push(me);
                        assert(crumb_views(v@) =~= before.push(mev));
                        v
                    },
                    None => match find_request(rs, f) {
                        Some(r2) => {
                            if fuel == 0 {
                                let v = vec![me];
                                assert(crumb_views(v@) =~= seq![mev]);
                                v
                            } else {
                                let mut v = request_breadcrumbs(cs, fs, rs, r2, fuel - 1);
                                let ghost before = crumb_views(v@);
                                v.push(me);
                                assert(crumb_views(v@) =~= before.push(mev));
                                v
                            }
                        },
                        None => {
                            let v = vec![me];
                            assert(crumb_views(v@) =~= seq![mev]);
                            v
                        },
                    },
                },
            }
        },
        Some(ResourceParent::Collection(c)) => {
            proof {
                lemma_first_index_bound(named_ids(cs@), c);
            }
            match find_named(cs, c) {
                Some(k) => {
                    let v = vec![crumb(cs[k].id, &cs[k].name, CrumbKind::Collection), me];
                    assert(crumb_views(v@) =~= seq![(cs@[k as int].id, cs@[k as int].name@, CrumbKind::Collection), mev]);
                    v
                },
                None => {
                    let v = vec![me];
                    assert(crumb_views(v@) =~= seq![mev]);
                    v
                },
            }
        },
        None => {
            let v = vec![me];
            assert(crumb_views(v@) =~= seq![mev]);
            v
        },
    }
}

/// The breadcrumb path of a resource, from its collection down to it.
pub fn resolve_breadcrumbs(
    collections: &Vec<NamedResource>,
    folders: &Vec<FolderInfo>,
    requests: &Vec<RequestInfo>,
    target: ResourceId,
) -> (r: Vec<BreadcrumbItem>)
    requires
        crumbs_end(collections@, folders@, requests@, target),
    ensures
        crumb_views(r@) == breadcrumbs_of(collections@, folders@, requests@, target),
{
    proof {
        lemma_first_index_bound(named_ids(collections@), target);
        lemma_first_index_bound(folder_ids(folders@), target);
        lemma_first_index_bound(request_ids(requests@), target);
    }
    if let Some(c) = find_named(collections, target) {
        let v = vec![crumb(collections[c].id, &collections[c].name, CrumbKind::Collection)];
        assert(crumb_views(v@) =~= seq![(collections@[c as int].id, collections@[c as int].name@, CrumbKind::Collection)]);
        return v;
    }
    if let Some(i) = find_folder(folders, target) {
        return folder_breadcrumbs(collections, folders, i);
    }
    match find_request(requests, target) {
        None => {
            let v: Vec<BreadcrumbItem> = Vec::new();
            assert(crumb_views(v@) =~= Seq::<(ResourceId, Seq<char>, CrumbKind)>::empty());
            v
        },
        Some(r) => request_breadcrumbs(collections, folders, requests, r, requests.len()),
    }
}

// ---------------------------------------------------------------------------
// Resource operations
// ---------------------------------------------------------------------------

/// The name a duplicate gets: the original's, then ` (Copy)`.
pub fn copy_name(name: &str) -> (r: String)
    ensures
        r@ == name@ + " (Copy)"@,
{
    let mut r = name.to_owned();
    r.push_str(" (Copy)");
    r
}

/// A container's item order with `id` taken out wherever it stands, the
/// others kept in order.
pub fn order_without(order: &Vec<ResourceId>, id: ResourceId) -> (r: Vec<ResourceId>)
    ensures
        r@ == order@.filter(|x: ResourceId| x != id),
{
    let mut r: Vec<ResourceId> = Vec::new();
    let mut i: usize = 0;
    while i < order.len()
        invariant
            i <= order.len(),
            r@ == order@.take(i as int).filter(|x: ResourceId| x != id),
        decreases order.len() - i,
    {
        proof {
            assert(order@.take(i + 1).drop_last() =~= order@.take(i as int));
            reveal(Seq::filter);
        }
        if order[i] != id {
            r.push(order[i]);
        }
        i = i + 1;
    }
    assert(order@.take(i as int) =~= order@);
    r
}

/// Where a moved folder ends up: its parent folder, if any, and its collection.
#[derive(Debug, Clone, Copy, PartialEq, Eq, Structural)]
pub struct FolderMove {
    pub parent: Option<ResourceId>,
    pub collection: ResourceId,
}

/// The folder links with the parent of `id` set to `parent`.
pub open spec fn relinked(
    links: Seq<(ResourceId, Option<ResourceId>)>,
    id: ResourceId,
    parent: Option<ResourceId>,
) -> Seq<(ResourceId, Option<ResourceId>)> {
    links.map_values(|l: (ResourceId, Option<ResourceId>)| if l.0 == id { (id, parent) } else { l })
}

/// The new place of folder `id`, now in `collection`, when moved under `to`.
pub open spec fn folder_move(collection: ResourceId, to: ResourceParent) -> FolderMove {
    match to {
        ResourceParent::Folder(f) => FolderMove { parent: Some(f), collection },
        ResourceParent::Collection(c) => FolderMove { parent: None, collection: c },
    }
}

/// Decides a move. For a folder (`folder_collection` holds its collection)
/// under itself the move is refused with a circular-hierarchy error and the
/// folder is left alone. Otherwise the folder takes its new parent and
/// collection, and the folder links with that new parent (`links` holds
/// each folder with its parent) are checked for cycles, the move being
/// refused as `validate_folder_hierarchy` refuses them. A request is not a
/// folder and is never refused. Returns the folder's new place, if any, and
/// whether the move may go on.
pub fn move_plan(
    links: &Vec<(ResourceId, Option<ResourceId>)>,
    folder_collection: Option<ResourceId>,
    id: ResourceId,
    to: ResourceParent,
) -> (r: (Option<FolderMove>, Result<(), WorkspaceError>))
    ensures
        match folder_collection {
            None => r.0 is None && r.1 is Ok,
            Some(c) => if to == ResourceParent::Folder(id) {
            r.0 is None && (r.1 matches Err(WorkspaceError::CircularHierarchy(x)) && x == id)
        } else {
            r.0 == Some(folder_move(c, to)) && match r.1 {
                Ok(()) => forall|i: int|
                    0 <= i < links@.len() ==> ancestor(
                        relinked(links@, id, folder_move(c, to).parent),
                        (#[trigger] links@[i]).0,
                        (links@.len() + 1) as nat,
                    ) is None,
                Err(e) => e matches WorkspaceError::CircularHierarchy(x) && exists|i: int|
                    0 <= i < links@.len() && ancestor(
                        relinked(links@, id, folder_move(c, to).parent),
                        (#[trigger] links@[i]).0,
                        (links@.len() + 1) as nat,
                    ) == Some(x),
            }
            },
        },
{
    match folder_collection {
        None => (None, Ok(())),
        Some(c) => {
            match to {
                ResourceParent::Folder(f) => {
                    if f == id {
                        return (None, Err(WorkspaceError::CircularHierarchy(id)));
                    }
                },
                ResourceParent::Collection(_) => {},
            }
            let place = match to {
                ResourceParent::Folder(f) => FolderMove { parent: Some(f), collection: c },
                ResourceParent::Collection(k) => FolderMove { parent: None, collection: k },
            };
            let mut updated: Vec<(ResourceId, Option<ResourceId>)> = Vec::new();
            let mut i: usize = 0;
            while i < links.len()
                invariant
                    i <= links.len(),
                    updated@ == relinked(links@, id, place.parent).take(i as int),
                decreases links.len() - i,
            {
                let l = links[i];
                if l.0 == id {
                    updated.push((id, place.parent));
                } else {
                    updated.push(l);
                }
                assert(relinked(links@, id, place.parent).take(i + 1) =~= relinked(links@, id, place.parent).take(
                    i as int,
                ).push(relinked(links@, id, place.parent)[i as int]));
                i = i + 1;
            }
            assert(relinked(links@, id, place.parent).take(i as int) =~= relinked(links@, id, place.parent));
            let checked = validate_folder_hierarchy(updated.as_slice());
            let ghost rel = relinked(links@, id, place.parent);
            let ghost n = (links@.len() + 1) as nat;
            proof {
                assert(updated@ == rel);
                assert(updated@.len() == links@.len());
                match &checked {
                    Ok(()) => {
                        assert forall|k: int| 0 <= k < links@.len() implies ancestor(
                            rel,
                            (#[trigger] links@[k]).0,
                            n,
                        ) is None by {
                            assert(updated@[k].0 == links@[k].0);
                        }
                    },
                    Err(e) => {
                        let i = choose|i: int|
                            0 <= i < updated@.len() && ancestor(updated@, (#[trigger] updated@[i]).0, n)
                                == Some(e->CircularHierarchy_0);
                        assert(updated@[i].0 == links@[i].0);
                    },
                }
            }
            (Some(place), checked)
        },
    }
}

} // verus!
