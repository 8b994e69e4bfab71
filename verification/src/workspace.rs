//! Workspace naming and structure rules: resource slugs, file extensions,
//! folder hierarchies, and workspace errors.
use vstd::prelude::*;
use std::path::PathBuf;
use crate::domain::{uuid_string, uuid_text, ResourceId};
use crate::text::is_prefix_seq;
use crate::text::{ascii_lower, chars_of, is_alphanumeric, string_of, to_ascii_lowercase, unicode_alphanumeric};

verus! {

#[verifier::external_type_specification]
#[verifier::external_body]
pub struct ExYamlError(serde_yaml::Error);

/// Root manifest filename.
pub const WORKSPACE_MANIFEST_NAME: &'static str = "packetsmith.yaml";

/// File extensions of the resource documents.
pub const REQUEST_EXT: &'static str = ".req.yaml";
pub const COLLECTION_EXT: &'static str = ".col.yaml";
pub const FOLDER_EXT: &'static str = ".folder.yaml";
pub const ENVIRONMENT_EXT: &'static str = ".env.yaml";

/// Schema version of the workspace format.
pub const CURRENT_SCHEMA_VERSION: &'static str = "1.0.0";

/// Why a workspace could not be read, written or accepted.
#[derive(Debug)]
pub enum WorkspaceError {
    NotFound(PathBuf),
    Io(std::io::Error),
    Yaml(serde_yaml::Error),
    UnsupportedSchemaVersion(String, String),
    CircularHierarchy(ResourceId),
    Collision(String),
}

/// Renders an I/O error with its `Display` implementation; the text comes
/// from the system, so nothing is claimed of it.
#[verifier::external_body]
pub(crate) fn io_error_text(e: &std::io::Error) -> String {
    e.to_string()
}

/// Renders a YAML error with its `Display` implementation; nothing is
/// claimed of the text.
#[verifier::external_body]
fn yaml_error_text(e: &serde_yaml::Error) -> String {
    e.to_string()
}

/// Renders a path with `Path::display`; nothing is claimed of the text.
#[verifier::external_body]
fn path_text(p: &PathBuf) -> String {
    p.display().to_string()
}

proof fn lemma_prefix_concat(p: Seq<char>, q: Seq<char>)
    ensures
        is_prefix_seq(p, p + q),
{
    assert((p + q).subrange(0, p.len() as int) =~= p);
}

impl WorkspaceError {
    /// The text of the error.
    pub fn message(&self) -> (m: String)
        ensures
            match self {
                WorkspaceError::NotFound(_) => is_prefix_seq("Manifest file not found at "@, m@),
                WorkspaceError::Io(_) => is_prefix_seq("I/O error: "@, m@),
                WorkspaceError::Yaml(_) => is_prefix_seq("YAML serialization or deserialization error: "@, m@),
                WorkspaceError::UnsupportedSchemaVersion(a, b) => m@ == "Invalid schema version: expected '"@ + a@
                    + "', got '"@ + b@ + "'"@,
                WorkspaceError::CircularHierarchy(id) => m@ == "Circular folder hierarchy detected involving folder ID: "@
                    + uuid_text(id.0),
                WorkspaceError::Collision(f) => m@ == "Resource collision: filename '"@ + f@ + "' already exists"@,
            },
    {
        match self {
            WorkspaceError::NotFound(p) => {
                let mut m = "Manifest file not found at ".to_owned();
                let ghost p0 = m@;
                let t = path_text(p);
                m.push_str(t.as_str());
                proof {
                    lemma_prefix_concat(p0, t@);
                }
                m
            },
            WorkspaceError::Io(e) => {
                let mut m = "I/O error: ".to_owned();
                let ghost p0 = m@;
                let t = io_error_text(e);
                m.push_str(t.as_str());
                proof {
                    lemma_prefix_concat(p0, t@);
                }
                m
            },
            WorkspaceError::Yaml(e) => {
                let mut m = "YAML serialization or deserialization error: ".to_owned();
                let ghost p0 = m@;
                let t = yaml_error_text(e);
                m.push_str(t.as_str());
                proof {
                    lemma_prefix_concat(p0, t@);
                }
                m
            },
            WorkspaceError::UnsupportedSchemaVersion(a, b) => {
                let mut m = "Invalid schema version: expected '".to_owned();
                m.push_str(a.as_str());
                m.push_str("', got '");
                m.push_str(b.as_str());
                m.push_str("'");
                m
            },
            WorkspaceError::CircularHierarchy(id) => {
                let mut m = "Circular folder hierarchy detected involving folder ID: ".to_owned();
                let t = uuid_string(id.0);
                m.push_str(t.as_str());
                m
            },
            WorkspaceError::Collision(f) => {
                let mut m = "Resource collision: filename '".to_owned();
                m.push_str(f.as_str());
                m.push_str("' already exists");
                m
            },
        }
    }
}

// ---------------------------------------------------------------------------
// Slugs
// ---------------------------------------------------------------------------

/// Letters and digits, ASCII capitals lowered; every other character a dash.
pub open spec fn slug_chars(s: Seq<char>) -> Seq<char> {
    s.map_values(|c: char| if unicode_alphanumeric(c) { ascii_lower(c) } else { '-' })
}

pub open spec fn trim_dashes_start(s: Seq<char>) -> Seq<char>
    decreases s.len(),
{
    if s.len() > 0 && s[0] == '-' {
        trim_dashes_start(s.drop_first())
    } else {
        s
    }
}

pub open spec fn trim_dashes_end(s: Seq<char>) -> Seq<char>
    decreases s.len(),
{
    if s.len() > 0 && s.last() == '-' {
        trim_dashes_end(s.drop_last())
    } else {
        s
    }
}

/// Runs of dashes reduced to one dash.
pub open spec fn collapse_dashes(s: Seq<char>) -> Seq<char>
    decreases s.len(),
{
    if s.len() == 0 {
        Seq::empty()
    } else if s.last() == '-' && s.len() >= 2 && s[s.len() - 2] == '-' {
        collapse_dashes(s.drop_last())
    } else {
        collapse_dashes(s.drop_last()).push(s.last())
    }
}

/// The file-system-safe slug of a name; `resource` when nothing is left.
pub open spec fn slug(name: Seq<char>) -> Seq<char> {
    let c = collapse_dashes(trim_dashes_end(trim_dashes_start(slug_chars(name))));
    if c.len() == 0 {
        "resource"@
    } else {
        c
    }
}

/// Converts a name into a file-system-safe slug: lowercase letters and
/// digits, single dashes between words.
pub fn slugify(name: &str) -> (r: String)
    ensures
        r@ == slug(name@),
{
    let chars = chars_of(name);
    let mut mapped: Vec<char> = Vec::new();
    let mut i: usize = 0;
    while i < chars.len()
        invariant
            i <= chars.len(),
            chars@ == name@,
            mapped@ == slug_chars(name@).take(i as int),
        decreases chars.len() - i,
    {
        let c = chars[i];
        let m = if is_alphanumeric(c) {
            to_ascii_lowercase(c)
        } else {
            '-'
        };
        mapped.push(m);
        proof {
            assert(slug_chars(name@).take(i + 1) =~= slug_chars(name@).take(i as int).push(m));
        }
        i = i + 1;
    }
    assert(slug_chars(name@).take(i as int) =~= slug_chars(name@));
    let ghost full = mapped@;
    let mut a: usize = 0;
    while a < mapped.len() && mapped[a] == '-'
        invariant
            a <= mapped.len(),
            trim_dashes_start(full) == trim_dashes_start(mapped@.subrange(a as int, mapped@.len() as int)),
            full == mapped@,
        decreases mapped.len() - a,
    {
        assert(mapped@.subrange(a as int, mapped@.len() as int).drop_first() =~= mapped@.subrange(
            a + 1,
            mapped@.len() as int,
        ));
        a = a + 1;
    }
    let mut b: usize = mapped.len();
    while b > a && mapped[b - 1] == '-'
        invariant
            a <= b <= mapped.len(),
            trim_dashes_end(mapped@.subrange(a as int, mapped@.len() as int)) == trim_dashes_end(
                mapped@.subrange(a as int, b as int),
            ),
        decreases b - a,
    {
        assert(mapped@.subrange(a as int, b as int).drop_last() =~= mapped@.subrange(a as int, b - 1));
        b = b - 1;
    }
    proof {
        assert(mapped@.subrange(a as int, mapped@.len() as int) == trim_dashes_start(full)) by {
            let t = mapped@.subrange(a as int, mapped@.len() as int);
            if t.len() > 0 {
                assert(t[0] == mapped@[a as int]);
            }
        }
        let t = mapped@.subrange(a as int, b as int);
        if t.len() > 0 {
            assert(t.last() == mapped@[b - 1]);
        }
    }
    let ghost trimmed = mapped@.subrange(a as int, b as int);
    let mut clean: Vec<char> = Vec::new();
    let mut k = a;
    assert(trimmed.take(0) =~= Seq::<char>::empty());
    while k < b
        invariant
            a <= k <= b <= mapped.len(),
            trimmed == mapped@.subrange(a as int, b as int),
            clean@ == collapse_dashes(trimmed.take(k - a)),
        decreases b - k,
    {
        let c = mapped[k];
        let skip = c == '-' && k > a && mapped[k - 1] == '-';
        proof {
            let t = trimmed.take(k - a + 1);
            assert(t.drop_last() =~= trimmed.take(k - a));
            assert(t.last() == c);
            if k > a {
                assert(t[t.len() - 2] == mapped@[k - 1]);
            }
        }
        if !skip {
            clean.push(c);
        }
        k = k + 1;
    }
    assert(trimmed.take(b - a) =~= trimmed);
    if clean.len() == 0 {
        "resource".to_owned()
    } else {
        string_of(&clean)
    }
}

// ---------------------------------------------------------------------------
// Folder hierarchy
// ---------------------------------------------------------------------------

/// The parent of folder `id`: what its last entry says (none for a root or
/// an unknown folder).
pub open spec fn parent_of(links: Seq<(ResourceId, Option<ResourceId>)>, id: ResourceId) -> Option<ResourceId>
    decreases links.len(),
{
    if links.len() == 0 {
        None
    } else if links.last().0 == id {
        links.last().1
    } else {
        parent_of(links.drop_last(), id)
    }
}

/// The folder `k` parent steps above `id`, if the chain is that long.
pub open spec fn ancestor(links: Seq<(ResourceId, Option<ResourceId>)>, id: ResourceId, k: nat) -> Option<ResourceId>
    decreases k,
{
    if k == 0 {
        Some(id)
    } else {
        match ancestor(links, id, (k - 1) as nat) {
            Some(a) => parent_of(links, a),
            None => None,
        }
    }
}

fn parent_lookup(links: &[(ResourceId, Option<ResourceId>)], id: ResourceId) -> (r: Option<ResourceId>)
    ensures
        r == parent_of(links@, id),
{
    let mut i = links.len();
    assert(links@.take(links@.len() as int) =~= links@);
    while i > 0
        invariant
            i <= links.len(),
            parent_of(links@, id) == parent_of(links@.take(i as int), id),
        decreases i,
    {
        let (fid, parent) = links[i - 1];
        proof {
            assert(links@.take(i as int).drop_last() =~= links@.take(i - 1));
            assert(links@.take(i as int).last() == links@[i - 1]);
        }
        if fid == id {
            return parent;
        }
        i = i - 1;
    }
    proof {
        assert(links@.take(0).len() == 0);
    }
    None
}

/// Checks folder links (each folder with its parent) for cycles: every
/// chain of parents must end within as many steps as there are links.
/// Otherwise the error names the folder reached after that many steps,
/// walking up from the first folder whose chain does not end.
pub fn validate_folder_hierarchy(folders: &[(ResourceId, Option<ResourceId>)]) -> (r: Result<(), WorkspaceError>)
    ensures
        match r {
            Ok(()) => forall|i: int|
                0 <= i < folders@.len() ==> ancestor(
                    folders@,
                    (#[trigger] folders@[i]).0,
                    (folders@.len() + 1) as nat,
                ) is None,
            Err(e) => e matches WorkspaceError::CircularHierarchy(x) && exists|i: int|
                0 <= i < folders@.len() && ancestor(
                    folders@,
                    (#[trigger] folders@[i]).0,
                    (folders@.len() + 1) as nat,
                ) == Some(x),
        },
{
    let n = folders.len();
    let mut i: usize = 0;
    while i < n
        invariant
            i <= n == folders@.len(),
            forall|j: int|
                0 <= j < i ==> ancestor(folders@, (#[trigger] folders@[j]).0, (n + 1) as nat) is None,
        decreases n - i,
    {
        let start = folders[i].0;
        let mut current: Option<ResourceId> = parent_lookup(folders, start);
        let mut k: usize = 0;
        assert(ancestor(folders@, start, 0) == Some(start));
        while k < n
            invariant
                k <= n,
                n == folders@.len(),
                current == ancestor(folders@, start, (k + 1) as nat),
            decreases n - k,
        {
            current = match current {
                Some(c) => parent_lookup(folders, c),
                None => None,
            };
            k = k + 1;
        }
        match current {
            Some(x) => {
                assert(folders@[i as int].0 == start);
                return Err(WorkspaceError::CircularHierarchy(x));
            },
            None => {},
        }
        i = i + 1;
    }
    Ok(())
}

} // verus!
