//! Environments: typed variables with shared defaults, session values that
//! override them, and the local snapshot of non-secret session values.
//!
//! Secret defaults are never stored (only vault references are), secret
//! session values never leave the session, and tables show a mask in place
//! of every secret.
use vstd::prelude::*;
use crate::domain::{copy_opt_string, uuid_string, uuid_text, ResourceId, VariableEntry, VariableType};
use crate::json::{json_document, json_number, parses_as_document, parses_as_number};
use crate::text::{
    lemma_seq_le_antisymmetric, lemma_seq_le_total, lemma_seq_le_transitive, seq_le, str_le,
    chars_of, contains, contains_seq, ends_with, is_alphanumeric, is_prefix_seq, is_suffix_seq,
    starts_with, str_eq, trim, trim_seq, unicode_alphanumeric,
};
use crate::workspace::{io_error_text, WorkspaceError};
use crate::resolver::{DefinitionView, SourceView, VariableDefinition, VariableSource};
use std::path::PathBuf;

verus! {

broadcast use vstd::seq_lib::group_to_multiset_ensures;

/// Why an environment operation failed.
#[derive(Debug)]
pub enum EnvironmentError {
    Workspace(WorkspaceError),
    Io(std::io::Error),
    Missing(ResourceId),
    Invalid(String),
}

impl EnvironmentError {
    /// The text of the error; an invalid value is never quoted.
    pub fn message(&self) -> (m: String)
        ensures
            match self {
                EnvironmentError::Missing(id) => m@ == "Environment does not exist: "@ + uuid_text(id.0),
                EnvironmentError::Invalid(t) => m@ == "Invalid environment: "@ + t@,
                _ => true,
            },
    {
        match self {
            EnvironmentError::Workspace(w) => w.message(),
            EnvironmentError::Io(e) => io_error_text(e),
            EnvironmentError::Missing(id) => {
                let mut m = "Environment does not exist: ".to_owned();
                let t = uuid_string(id.0);
                m.push_str(t.as_str());
                m
            },
            EnvironmentError::Invalid(t) => {
                let mut m = "Invalid environment: ".to_owned();
                m.push_str(t.as_str());
                m
            },
        }
    }
}

/// A named set of variables.
#[derive(Debug, Clone, PartialEq)]
pub struct EnvironmentDocument {
    pub id: ResourceId,
    pub name: String,
    pub variables: Vec<VariableEntry>,
    pub created_at: i64,
    pub updated_at: i64,
}

impl EnvironmentDocument {
    /// An empty environment with a fresh identifier.
    pub fn new(name: &str) -> (r: Self)
        ensures
            r.name@ == name@,
            r.variables@.len() == 0,
            r.created_at == r.updated_at,
    {
        let now = crate::domain::unix_timestamp();
        EnvironmentDocument {
            id: ResourceId::new(),
            name: name.to_owned(),
            variables: Vec::new(),
            created_at: now,
            updated_at: now,
        }
    }

    pub fn copy(&self) -> (r: Self)
        ensures
            r.id == self.id,
            r.name == self.name,
            r.variables@ == self.variables@,
            r.created_at == self.created_at,
            r.updated_at == self.updated_at,
    {
        EnvironmentDocument {
            id: self.id,
            name: self.name.clone(),
            variables: copy_entries(&self.variables),
            created_at: self.created_at,
            updated_at: self.updated_at,
        }
    }
}

pub fn copy_entries(v: &Vec<VariableEntry>) -> (r: Vec<VariableEntry>)
    ensures
        r@ == v@,
{
    let mut r: Vec<VariableEntry> = Vec::new();
    let mut i: usize = 0;
    while i < v.len()
        invariant
            i <= v.len(),
            r@ == v@.take(i as int),
        decreases v.len() - i,
    {
        r.push(v[i].copy());
        assert(v@.take(i + 1) =~= v@.take(i as int).push(v@[i as int]));
        i = i + 1;
    }
    assert(v@.take(i as int) =~= v@);
    r
}

// ---------------------------------------------------------------------------
// Validation
// ---------------------------------------------------------------------------

pub open spec fn type_message() -> Seq<char> {
    "Value does not match declared type"@
}

pub open spec fn key_message() -> Seq<char> {
    "Empty or duplicate variable key"@
}

pub open spec fn name_message() -> Seq<char> {
    "Name is required"@
}

/// Characters allowed in keys and vault names: letters, digits, `_ - .`.
pub open spec fn key_char(c: char) -> bool {
    unicode_alphanumeric(c) || c == '_' || c == '-' || c == '.'
}

pub open spec fn all_key_chars(s: Seq<char>) -> bool {
    forall|i: int| 0 <= i < s.len() ==> key_char(#[trigger] s[i])
}

/// A vault reference `{{vault:NAME}}` with a non-empty name of key characters.
pub open spec fn vault_reference(v: Seq<char>) -> bool {
    &&& is_prefix_seq("{{vault:"@, v)
    &&& v.len() >= 10
    &&& is_suffix_seq("}}"@, v)
    &&& v.len() > 10
    &&& all_key_chars(v.subrange(8, v.len() - 2))
}

/// Whether a value fits its declared type. Empty values fit every type, and
/// so does a template (a value holding `{{`) unless a vault reference is due.
pub open spec fn value_ok(kind: VariableType, v: Seq<char>) -> bool {
    if v.len() == 0 || (contains_seq(v, "{{"@) && kind != VariableType::SecretReference) {
        true
    } else {
        match kind {
            VariableType::String => true,
            VariableType::Number => json_number(v),
            VariableType::Boolean => v == "true"@ || v == "false"@,
            VariableType::Json => json_document(v),
            VariableType::SecretReference => vault_reference(v),
        }
    }
}

fn key_chars_ok(s: &[char]) -> (r: bool)
    ensures
        r == all_key_chars(s@),
{
    let mut i: usize = 0;
    while i < s.len()
        invariant
            i <= s.len(),
            forall|k: int| 0 <= k < i ==> key_char(#[trigger] s@[k]),
        decreases s.len() - i,
    {
        let c = s[i];
        if !(is_alphanumeric(c) || c == '_' || c == '-' || c == '.') {
            return false;
        }
        i = i + 1;
    }
    true
}

/// Checks a value against its declared type; the error never quotes it.
pub fn validate_value(kind: VariableType, value: &str) -> (r: Result<(), EnvironmentError>)
    ensures
        r is Ok <==> value_ok(kind, value@),
        r matches Err(e) ==> e matches EnvironmentError::Invalid(m) && m@ == type_message(),
        kind == VariableType::Boolean && (value@ == "true"@ || value@ == "false"@) ==> r is Ok,
{
    let v = chars_of(value);
    let open: Vec<char> = vec!['{', '{'];
    assert(open@ == "{{"@) by {
        reveal_strlit("{{");
    }
    if v.len() == 0 || (contains(&v, &open) && kind != VariableType::SecretReference) {
        return Ok(());
    }
    let valid = match kind {
        VariableType::String => true,
        VariableType::Number => parses_as_number(value),
        VariableType::Boolean => str_eq(value, "true") || str_eq(value, "false"),
        VariableType::Json => parses_as_document(value),
        VariableType::SecretReference => {
            let prefix: Vec<char> = vec!['{', '{', 'v', 'a', 'u', 'l', 't', ':'];
            let suffix: Vec<char> = vec!['}', '}'];
            assert(prefix@ == "{{vault:"@) by {
                reveal_strlit("{{vault:");
            }
            assert(suffix@ == "}}"@) by {
                reveal_strlit("}}");
            }
            if v.len() > 10 && starts_with(&v, &prefix) && ends_with(&v, &suffix) {
                key_chars_ok(&v[8..v.len() - 2])
            } else {
                false
            }
        },
    };
    if valid {
        Ok(())
    } else {
        Err(EnvironmentError::Invalid("Value does not match declared type".to_owned()))
    }
}

/// Whether the key of variable `i` is taken by an earlier variable.
pub open spec fn key_taken(vars: Seq<VariableEntry>, i: int) -> bool {
    exists|j: int| 0 <= j < i && (#[trigger] vars[j]).key@ == vars[i].key@
}

/// The first problem of a list of variables, checked in order: a key that
/// is blank, has other characters or repeats an earlier one; a value that
/// does not fit its type.
pub open spec fn vars_problem(vars: Seq<VariableEntry>) -> Option<Seq<char>>
    decreases vars.len(),
{
    if vars.len() == 0 {
        None
    } else {
        match vars_problem(vars.drop_last()) {
            Some(m) => Some(m),
            None => {
                let v = vars.last();
                if trim_seq(v.key@).len() == 0 || !all_key_chars(v.key@) || key_taken(
                    vars,
                    vars.len() - 1,
                ) {
                    Some(key_message())
                } else if !value_ok(v.value_type, v.value@) {
                    Some(type_message())
                } else {
                    None
                }
            },
        }
    }
}

proof fn lemma_problem_prefix(s: Seq<VariableEntry>, n: int)
    requires
        0 <= n <= s.len(),
        vars_problem(s.take(n)) is Some,
    ensures
        vars_problem(s) == vars_problem(s.take(n)),
    decreases s.len() - n,
{
    if n < s.len() {
        assert(s.take(n + 1).drop_last() =~= s.take(n));
        lemma_problem_prefix(s, n + 1);
    } else {
        assert(s.take(n) =~= s);
    }
}

/// The problem of a document, if any: a blank name first, then its variables.
pub open spec fn doc_problem(doc: EnvironmentDocument) -> Option<Seq<char>> {
    if trim_seq(doc.name@).len() == 0 {
        Some(name_message())
    } else {
        vars_problem(doc.variables@)
    }
}

/// Checks an environment: a name, unique well-formed keys, typed values.
pub fn validate(doc: &EnvironmentDocument) -> (r: Result<(), EnvironmentError>)
    ensures
        match r {
            Ok(()) => doc_problem(*doc) is None,
            Err(e) => e matches EnvironmentError::Invalid(m) && doc_problem(*doc) == Some(m@),
        },
{
    let name = trim(doc.name.as_str());
    if name.as_str().is_empty() {
        return Err(EnvironmentError::Invalid("Name is required".to_owned()));
    }
    let vars = &doc.variables;
    let mut i: usize = 0;
    assert(vars@.take(0) =~= Seq::<VariableEntry>::empty());
    while i < vars.len()
        invariant
            i <= vars@.len(),
            trim_seq(doc.name@).len() != 0,
            vars == doc.variables,
            vars_problem(vars@.take(i as int)) is None,
        decreases vars.len() - i,
    {
        let ghost pre = vars@.take(i + 1);
        assert(pre.drop_last() =~= vars@.take(i as int));
        assert(pre.last() == vars@[i as int]);
        let key = vars[i].key.as_str();
        let trimmed = trim(key);
        let kc = chars_of(key);
        let mut taken = false;
        let mut j: usize = 0;
        while j < i
            invariant
                j <= i < vars@.len(),
                key@ == vars@[i as int].key@,
                taken == exists|k: int| 0 <= k < j && (#[trigger] vars@[k]).key@ == vars@[i as int].key@,
            decreases i - j,
        {
            if str_eq(vars[j].key.as_str(), key) {
                taken = true;
                assert(vars@[j as int].key@ == vars@[i as int].key@);
            } else {
                assert(vars@[j as int].key@ != vars@[i as int].key@);
            }
            j = j + 1;
        }
        assert(taken == key_taken(pre, i as int)) by {
            assert forall|k: int| 0 <= k < i implies pre[k] == vars@[k] by {}
            if taken {
                let k = choose|k: int| 0 <= k < i && (#[trigger] vars@[k]).key@ == vars@[i as int].key@;
                assert(pre[k] == vars@[k]);
            }
            if key_taken(pre, i as int) {
                let k = choose|k: int| 0 <= k < i && (#[trigger] pre[k]).key@ == pre[i as int].key@;
                assert(pre[k] == vars@[k]);
            }
        }
        if trimmed.as_str().is_empty() || !key_chars_ok(&kc) || taken {
            proof {
                lemma_problem_prefix(vars@, i + 1);
            }
            return Err(EnvironmentError::Invalid("Empty or duplicate variable key".to_owned()));
        }
        match validate_value(vars[i].value_type, vars[i].value.as_str()) {
            Ok(()) => {},
            Err(e) => {
                proof {
                    lemma_problem_prefix(vars@, i + 1);
                }
                return Err(e);
            },
        }
        i = i + 1;
    }
    assert(vars@.take(i as int) =~= vars@);
    Ok(())
}

/// A secret default is stored only as a vault reference: any other secret
/// value is emptied.
pub open spec fn protected_value(v: VariableEntry) -> Seq<char> {
    if v.is_secret && v.value_type != VariableType::SecretReference {
        Seq::empty()
    } else {
        v.value@
    }
}

/// `after` is `before` with every secret default that is not a vault
/// reference emptied, all else kept.
pub open spec fn protected_vars(before: Seq<VariableEntry>, after: Seq<VariableEntry>) -> bool {
    &&& after.len() == before.len()
    &&& forall|i: int|
        0 <= i < before.len() ==> {
            &&& (#[trigger] after[i]).value@ == protected_value(before[i])
            &&& after[i].key == before[i].key
            &&& after[i].is_secret == before[i].is_secret
            &&& after[i].enabled == before[i].enabled
            &&& after[i].value_type == before[i].value_type
            &&& after[i].description == before[i].description
        }
}

/// Empties secret defaults that are not vault references.
pub fn protect_defaults(doc: &mut EnvironmentDocument)
    ensures
        protected_vars(old(doc).variables@, final(doc).variables@),
        final(doc).id == old(doc).id,
        final(doc).name == old(doc).name,
        final(doc).created_at == old(doc).created_at,
        final(doc).updated_at == old(doc).updated_at,
{
    let ghost before = doc.variables@;
    let mut i: usize = 0;
    while i < doc.variables.len()
        invariant
            i <= doc.variables@.len() == before.len(),
            doc.id == old(doc).id,
            doc.name == old(doc).name,
            doc.created_at == old(doc).created_at,
            doc.updated_at == old(doc).updated_at,
            before == old(doc).variables@,
            forall|k: int|
                0 <= k < before.len() ==> {
                    &&& (#[trigger] doc.variables@[k]).key == before[k].key
                    &&& doc.variables@[k].is_secret == before[k].is_secret
                    &&& doc.variables@[k].enabled == before[k].enabled
                    &&& doc.variables@[k].value_type == before[k].value_type
                    &&& doc.variables@[k].description == before[k].description
                    &&& doc.variables@[k].value@ == if k < i {
                        protected_value(before[k])
                    } else {
                        before[k].value@
                    }
                },
        decreases doc.variables.len() - i,
    {
        if doc.variables[i].is_secret && doc.variables[i].value_type != VariableType::SecretReference {
            let v = &mut doc.variables[i];
            v.value = String::new();
        }
        i = i + 1;
    }
}

// ---------------------------------------------------------------------------
// Display rows
// ---------------------------------------------------------------------------

/// Display-safe table row: secret contents never reach it.
#[derive(Debug, Clone, PartialEq, Eq)]
pub struct EnvironmentRow {
    pub key: String,
    pub default_value: String,
    pub current_value: Option<String>,
    pub is_secret: bool,
    pub enabled: bool,
    pub value_type: VariableType,
    pub description: Option<String>,
}

/// One key of two environments compared side by side.
#[derive(Debug, Clone, PartialEq, Eq)]
pub struct EnvironmentDifference {
    pub key: String,
    pub left: Option<EnvironmentRow>,
    pub right: Option<EnvironmentRow>,
}

/// Text shown in place of a secret value.
pub const ENV_SECRET_MASK: &'static str = "\u{2022}\u{2022}\u{2022}\u{2022}\u{2022}\u{2022}\u{2022}\u{2022}";

/// Whether a variable's values are hidden: secrets and vault references.
pub open spec fn hidden(v: VariableEntry) -> bool {
    v.is_secret || v.value_type == VariableType::SecretReference
}

/// A value as a table shows it.
pub open spec fn shown(v: VariableEntry, s: Seq<char>) -> Seq<char> {
    if hidden(v) {
        ENV_SECRET_MASK@
    } else {
        s
    }
}

// ---------------------------------------------------------------------------
// Lookups
// ---------------------------------------------------------------------------

/// The first document with identifier `id`.
pub open spec fn find_doc(docs: Seq<EnvironmentDocument>, id: ResourceId) -> Option<EnvironmentDocument>
    decreases docs.len(),
{
    if docs.len() == 0 {
        None
    } else if docs[0].id == id {
        Some(docs[0])
    } else {
        find_doc(docs.drop_first(), id)
    }
}

/// The first variable with key `key`.
pub open spec fn find_var(vars: Seq<VariableEntry>, key: Seq<char>) -> Option<VariableEntry>
    decreases vars.len(),
{
    if vars.len() == 0 {
        None
    } else if vars[0].key@ == key {
        Some(vars[0])
    } else {
        find_var(vars.drop_first(), key)
    }
}

/// The session value of key `key` in environment `id`.
pub open spec fn find_local(local: Seq<(ResourceId, String, String)>, id: ResourceId, key: Seq<char>) -> Option<String>
    decreases local.len(),
{
    if local.len() == 0 {
        None
    } else if local[0].0 == id && local[0].1@ == key {
        Some(local[0].2)
    } else {
        find_local(local.drop_first(), id, key)
    }
}

proof fn lemma_find_var_skip(vars: Seq<VariableEntry>, key: Seq<char>, i: int)
    requires
        0 <= i < vars.len(),
        vars[i].key@ != key,
    ensures
        find_var(vars.skip(i), key) == find_var(vars.skip(i + 1), key),
{
    assert(vars.skip(i).drop_first() =~= vars.skip(i + 1));
}

pub(crate) fn find_var_index(vars: &Vec<VariableEntry>, key: &str) -> (r: Option<usize>)
    ensures
        match r {
            Some(i) => i < vars@.len() && find_var(vars@, key@) == Some(vars@[i as int]),
            None => find_var(vars@, key@) is None,
        },
{
    let mut i: usize = 0;
    assert(vars@.skip(0) =~= vars@);
    while i < vars.len()
        invariant
            i <= vars@.len(),
            find_var(vars@, key@) == find_var(vars@.skip(i as int), key@),
        decreases vars.len() - i,
    {
        if str_eq(vars[i].key.as_str(), key) {
            assert(vars@.skip(i as int)[0] == vars@[i as int]);
            return Some(i);
        }
        proof {
            lemma_find_var_skip(vars@, key@, i as int);
        }
        i = i + 1;
    }
    assert(vars@.skip(i as int) =~= Seq::<VariableEntry>::empty());
    None
}

// ---------------------------------------------------------------------------
// The manager
// ---------------------------------------------------------------------------

/// The path that `std::path::Path::join` makes of a directory and a name.
pub uninterp spec fn joined_path(dir: PathBuf, name: Seq<char>) -> PathBuf;

/// Joins a file name to a directory with `std::path::Path::join`; the path
/// is named `joined_path`.
#[verifier::external_body]
fn join_path(dir: &PathBuf, name: &str) -> (r: PathBuf)
    ensures
        r == joined_path(*dir, name@),
{
    dir.join(name)
}

/// Clones a path with `PathBuf::clone`: the same path.
#[verifier::external_body]
fn copy_path(p: &PathBuf) -> (r: PathBuf)
    ensures
        r == *p,
{
    p.clone()
}

/// Two documents with the same identity, name, variables and times.
pub open spec fn same_doc(a: EnvironmentDocument, b: EnvironmentDocument) -> bool {
    a.id == b.id && a.name == b.name && a.variables@ == b.variables@ && a.created_at == b.created_at
        && a.updated_at == b.updated_at
}

/// A value saved from the session: only public variables are ever saved.
pub struct LocalOverride {
    pub environment: ResourceId,
    pub key: String,
    pub value: String,
    pub value_type: VariableType,
}

/// Environments of a workspace and the session values that override their
/// defaults.
pub struct EnvironmentManager {
    root: PathBuf,
    documents: Vec<EnvironmentDocument>,
    paths: Vec<(ResourceId, PathBuf)>,
    local: Vec<(ResourceId, String, String)>,
}

/// The enabled variables of `vars`, each with its session value, if any,
/// in place of its default.
pub open spec fn effective(vars: Seq<VariableEntry>, local: Seq<(ResourceId, String, String)>, id: ResourceId) -> Seq<VariableEntry>
    decreases vars.len(),
{
    if vars.len() == 0 {
        Seq::empty()
    } else {
        let rest = effective(vars.drop_last(), local, id);
        let v = vars.last();
        if !v.enabled {
            rest
        } else {
            rest.push(
                match find_local(local, id, v.key@) {
                    Some(s) => VariableEntry { value: s, ..v },
                    None => v,
                },
            )
        }
    }
}

pub ghost struct RowView {
    pub key: Seq<char>,
    pub default_value: Seq<char>,
    pub current_value: Option<Seq<char>>,
    pub is_secret: bool,
    pub enabled: bool,
    pub value_type: VariableType,
    pub description: Option<Seq<char>>,
}

impl View for EnvironmentRow {
    type V = RowView;

    open spec fn view(&self) -> RowView {
        RowView {
            key: self.key@,
            default_value: self.default_value@,
            current_value: match self.current_value {
                Some(s) => Some(s@),
                None => None,
            },
            is_secret: self.is_secret,
            enabled: self.enabled,
            value_type: self.value_type,
            description: match self.description {
                Some(d) => Some(d@),
                None => None,
            },
        }
    }
}

/// The row of a variable: values masked when hidden.
pub open spec fn row_of(v: VariableEntry, session: Option<String>) -> RowView {
    RowView {
        key: v.key@,
        default_value: shown(v, v.value@),
        current_value: match session {
            Some(s) => Some(shown(v, s@)),
            None => None,
        },
        is_secret: v.is_secret,
        enabled: v.enabled,
        value_type: v.value_type,
        description: match v.description {
            Some(d) => Some(d@),
            None => None,
        },
    }
}

pub open spec fn row_views(s: Seq<EnvironmentRow>) -> Seq<RowView> {
    s.map_values(|r: EnvironmentRow| r@)
}

impl EnvironmentManager {
    pub closed spec fn docs(self) -> Seq<EnvironmentDocument> {
        self.documents@
    }

    pub closed spec fn sessions(self) -> Seq<(ResourceId, String, String)> {
        self.local@
    }

    pub closed spec fn path_list(self) -> Seq<(ResourceId, PathBuf)> {
        self.paths@
    }

    pub closed spec fn root_spec(self) -> PathBuf {
        self.root
    }

    /// Each key of each environment has at most one session value.
    pub open spec fn wf(self) -> bool {
        forall|i: int, j: int|
            0 <= i < j < self.sessions().len() ==> !((#[trigger] self.sessions()[i]).0 == (
            #[trigger] self.sessions()[j]).0 && self.sessions()[i].1@ == self.sessions()[j].1@)
    }

    /// The session value of a key.
    pub open spec fn session(self, id: ResourceId, key: Seq<char>) -> Option<String> {
        find_local(self.sessions(), id, key)
    }

    /// No manager, in the directory `environments` of the workspace.
    pub fn new(workspace: PathBuf) -> (r: Self)
        ensures
            r.root_spec() == joined_path(workspace, "environments"@),
            r.wf(),
            r.docs().len() == 0,
            r.sessions().len() == 0,
            r.path_list().len() == 0,
    {
        let root = join_path(&workspace, "environments");
        EnvironmentManager { root, documents: Vec::new(), paths: Vec::new(), local: Vec::new() }
    }

    /// The directory of the environment files.
    pub fn root(&self) -> (r: &PathBuf)
        ensures
            *r == self.root_spec(),
    {
        &self.root
    }

    fn doc_index(&self, id: ResourceId) -> (r: Option<usize>)
        ensures
            match r {
                Some(i) => i < self.docs().len() && find_doc(self.docs(), id) == Some(self.docs()[i as int])
                    && self.docs()[i as int].id == id && forall|k: int|
                    0 <= k < i ==> (#[trigger] self.docs()[k]).id != id,
                None => find_doc(self.docs(), id) is None,
            },
    {
        let mut i: usize = 0;
        assert(self.documents@.skip(0) =~= self.documents@);
        while i < self.documents.len()
            invariant
                i <= self.documents@.len(),
                find_doc(self.documents@, id) == find_doc(self.documents@.skip(i as int), id),
                forall|k: int| 0 <= k < i ==> (#[trigger] self.documents@[k]).id != id,
            decreases self.documents.len() - i,
        {
            if self.documents[i].id == id {
                assert(self.documents@.skip(i as int)[0] == self.documents@[i as int]);
                return Some(i);
            }
            assert(self.documents@.skip(i as int).drop_first() =~= self.documents@.skip(i + 1));
            i = i + 1;
        }
        assert(self.documents@.skip(i as int) =~= Seq::<EnvironmentDocument>::empty());
        None
    }

    fn local_index(&self, id: ResourceId, key: &str) -> (r: Option<usize>)
        ensures
            match r {
                Some(i) => i < self.sessions().len() && self.sessions()[i as int].0 == id
                    && self.sessions()[i as int].1@ == key@ && self.session(id, key@) == Some(
                    self.sessions()[i as int].2,
                ) && forall|k: int|
                    0 <= k < i ==> !((#[trigger] self.sessions()[k]).0 == id && self.sessions()[k].1@
                        == key@),
                None => self.session(id, key@) is None && forall|k: int|
                    0 <= k < self.sessions().len() ==> !((#[trigger] self.sessions()[k]).0 == id
                        && self.sessions()[k].1@ == key@),
            },
    {
        let mut i: usize = 0;
        assert(self.local@.skip(0) =~= self.local@);
        while i < self.local.len()
            invariant
                i <= self.local@.len(),
                find_local(self.local@, id, key@) == find_local(self.local@.skip(i as int), id, key@),
                forall|k: int|
                    0 <= k < i ==> !((#[trigger] self.local@[k]).0 == id && self.local@[k].1@ == key@),
            decreases self.local.len() - i,
        {
            if self.local[i].0 == id && str_eq(self.local[i].1.as_str(), key) {
                assert(self.local@.skip(i as int)[0] == self.local@[i as int]);
                return Some(i);
            }
            assert(self.local@.skip(i as int).drop_first() =~= self.local@.skip(i + 1));
            i = i + 1;
        }
        assert(self.local@.skip(i as int) =~= Seq::<(ResourceId, String, String)>::empty());
        None
    }

    /// The environment with identifier `id`.
    pub fn get(&self, id: ResourceId) -> (r: Result<&EnvironmentDocument, EnvironmentError>)
        ensures
            match r {
                Ok(d) => find_doc(self.docs(), id) == Some(*d),
                Err(e) => find_doc(self.docs(), id) is None && (e matches EnvironmentError::Missing(x)
                    && x == id),
            },
    {
        match self.doc_index(id) {
            Some(i) => Ok(&self.documents[i]),
            None => Err(EnvironmentError::Missing(id)),
        }
    }

    /// A separate manager with the same environments and session values, for
    /// changes that must either all happen or none.
    pub fn copy(&self) -> (r: Self)
        ensures
            r.docs().len() == self.docs().len(),
            forall|i: int| 0 <= i < self.docs().len() ==> same_doc(#[trigger] r.docs()[i], self.docs()[i]),
            r.sessions() == self.sessions(),
            r.path_list().len() == self.path_list().len(),
            r.path_list() == self.path_list(),
            r.root_spec() == self.root_spec(),
            self.wf() ==> r.wf(),
    {
        let mut documents: Vec<EnvironmentDocument> = Vec::new();
        let mut i: usize = 0;
        while i < self.documents.len()
            invariant
                i <= self.documents.len(),
                documents@.len() == i,
                forall|k: int| 0 <= k < i ==> same_doc(#[trigger] documents@[k], self.documents@[k]),
            decreases self.documents.len() - i,
        {
            documents.push(self.documents[i].copy());
            i = i + 1;
        }
        let mut paths: Vec<(ResourceId, PathBuf)> = Vec::new();
        let mut j: usize = 0;
        while j < self.paths.len()
            invariant
                j <= self.paths.len(),
                paths@.len() == j,
                paths@ == self.paths@.take(j as int),
            decreases self.paths.len() - j,
        {
            paths.push((self.paths[j].0, copy_path(&self.paths[j].1)));
            assert(self.paths@.take(j + 1) =~= self.paths@.take(j as int).push(self.paths@[j as int]));
            j = j + 1;
        }
        assert(self.paths@.take(j as int) =~= self.paths@);
        let mut local: Vec<(ResourceId, String, String)> = Vec::new();
        let mut k: usize = 0;
        while k < self.local.len()
            invariant
                k <= self.local.len(),
                local@ == self.local@.take(k as int),
            decreases self.local.len() - k,
        {
            let (id, key, value) = &self.local[k];
            local.push((*id, key.clone(), value.clone()));
            assert(self.local@.take(k + 1) =~= self.local@.take(k as int).push(self.local@[k as int]));
            k = k + 1;
        }
        assert(self.local@.take(k as int) =~= self.local@);
        let r = EnvironmentManager { root: copy_path(&self.root), documents, paths, local };
        assert(r.sessions() == self.sessions());
        r
    }

    /// The file of an environment.
    pub fn path_of(&self, id: ResourceId) -> (r: Option<&PathBuf>)
        ensures
            match r {
                Some(p) => exists|i: int|
                    0 <= i < self.path_list().len() && (#[trigger] self.path_list()[i]).0 == id && *p
                        == self.path_list()[i].1,
                None => forall|i: int|
                    0 <= i < self.path_list().len() ==> (#[trigger] self.path_list()[i]).0 != id,
            },
    {
        let mut i: usize = 0;
        while i < self.paths.len()
            invariant
                i <= self.paths@.len(),
                forall|k: int| 0 <= k < i ==> (#[trigger] self.paths@[k]).0 != id,
            decreases self.paths.len() - i,
        {
            if self.paths[i].0 == id {
                assert(self.path_list()[i as int] == self.paths@[i as int]);
                return Some(&self.paths[i].1);
            }
            i = i + 1;
        }
        None
    }

    /// Sets (`Some`) or clears (`None`) the session value of a variable; a
    /// value must fit the variable's type.
    pub fn set_current(&mut self, id: ResourceId, key: &str, value: Option<String>) -> (r: Result<(), EnvironmentError>)
        requires
            old(self).wf(),
        ensures
            final(self).wf(),
            final(self).docs() == old(self).docs(),
            final(self).path_list() == old(self).path_list(),
            final(self).root_spec() == old(self).root_spec(),
            match r {
                Err(EnvironmentError::Missing(x)) => x == id && find_doc(old(self).docs(), id) is None
                    && final(self).sessions() == old(self).sessions(),
                Err(EnvironmentError::Invalid(m)) => find_doc(old(self).docs(), id) matches Some(d) && (
                match find_var(d.variables@, key@) {
                    None => m@ == "Unknown variable"@,
                    Some(v) => value matches Some(s) && !value_ok(v.value_type, s@) && m@
                        == type_message(),
                }) && final(self).sessions() == old(self).sessions(),
                Err(_) => false,
                Ok(()) => {
                    &&& find_doc(old(self).docs(), id) matches Some(d) && find_var(
                        d.variables@,
                        key@,
                    ) matches Some(v) && (value matches Some(s) ==> value_ok(v.value_type, s@))
                    &&& final(self).session(id, key@) == value
                    &&& forall|i: ResourceId, k: Seq<char>|
                        !(i == id && k == key@) ==> #[trigger] final(self).session(i, k) == old(
                            self,
                        ).session(i, k)
                },
            },
    {
        let di = match self.doc_index(id) {
            Some(i) => i,
            None => {
                return Err(EnvironmentError::Missing(id));
            },
        };
        let vi = match find_var_index(&self.documents[di].variables, key) {
            Some(v) => v,
            None => {
                return Err(EnvironmentError::Invalid("Unknown variable".to_owned()));
            },
        };
        let kind = self.documents[di].variables[vi].value_type;
        match value {
            Some(v) => {
                validate_value(kind, v.as_str())?;
                self.put_local(id, key, v);
            },
            None => {
                self.remove_local(id, key);
            },
        }
        Ok(())
    }
}

proof fn lemma_find_local_push(
    l: Seq<(ResourceId, String, String)>,
    e: (ResourceId, String, String),
    id: ResourceId,
    key: Seq<char>,
)
    requires
        find_local(l, id, key) is None,
        e.0 == id,
        e.1@ == key,
    ensures
        find_local(l.push(e), id, key) == Some(e.2),
        forall|i: ResourceId, k: Seq<char>|
            !(i == id && k == key) ==> #[trigger] find_local(l.push(e), i, k) == find_local(l, i, k),
    decreases l.len(),
{
    if l.len() > 0 {
        assert(l.push(e)[0] == l[0]);
        assert(l.push(e).drop_first() =~= l.drop_first().push(e));
        lemma_find_local_push(l.drop_first(), e, id, key);
    } else {
        assert(l.push(e)[0] == e);
        assert(l.push(e).drop_first() =~= Seq::<(ResourceId, String, String)>::empty());
    }
    assert forall|i: ResourceId, k: Seq<char>|
        !(i == id && k == key) implies #[trigger] find_local(l.push(e), i, k) == find_local(l, i, k) by {
        lemma_find_local_push_other(l, e, i, k);
    }
}

proof fn lemma_find_local_push_other(
    l: Seq<(ResourceId, String, String)>,
    e: (ResourceId, String, String),
    i: ResourceId,
    k: Seq<char>,
)
    requires
        !(e.0 == i && e.1@ == k),
    ensures
        find_local(l.push(e), i, k) == find_local(l, i, k),
    decreases l.len(),
{
    if l.len() > 0 {
        assert(l.push(e)[0] == l[0]);
        assert(l.push(e).drop_first() =~= l.drop_first().push(e));
        lemma_find_local_push_other(l.drop_first(), e, i, k);
        assert(find_local(l.push(e), i, k) == if l[0].0 == i && l[0].1@ == k {
            Some(l[0].2)
        } else {
            find_local(l.drop_first().push(e), i, k)
        });
    } else {
        assert(l.push(e)[0] == e);
        assert(l.push(e).drop_first() =~= Seq::<(ResourceId, String, String)>::empty());
        assert(find_local(l.push(e).drop_first(), i, k) is None);
        assert(find_local(l.push(e), i, k) is None);
    }
}

proof fn lemma_find_local_update(
    l: Seq<(ResourceId, String, String)>,
    at: int,
    e: (ResourceId, String, String),
    id: ResourceId,
    key: Seq<char>,
)
    requires
        0 <= at < l.len(),
        l[at].0 == id && l[at].1@ == key,
        forall|k: int| 0 <= k < at ==> !((#[trigger] l[k]).0 == id && l[k].1@ == key),
        e.0 == id,
        e.1@ == key,
    ensures
        forall|i: ResourceId, k: Seq<char>|
            #[trigger] find_local(l.update(at, e), i, k) == if i == id && k == key {
                Some(e.2)
            } else {
                find_local(l, i, k)
            },
    decreases l.len(),
{
    assert forall|i: ResourceId, k: Seq<char>|
        #[trigger] find_local(l.update(at, e), i, k) == if i == id && k == key {
            Some(e.2)
        } else {
            find_local(l, i, k)
        } by {
        lemma_find_local_update_one(l, at, e, id, key, i, k);
    }
}

proof fn lemma_find_local_update_one(
    l: Seq<(ResourceId, String, String)>,
    at: int,
    e: (ResourceId, String, String),
    id: ResourceId,
    key: Seq<char>,
    i: ResourceId,
    k: Seq<char>,
)
    requires
        0 <= at < l.len(),
        l[at].0 == id && l[at].1@ == key,
        forall|j: int| 0 <= j < at ==> !((#[trigger] l[j]).0 == id && l[j].1@ == key),
        e.0 == id,
        e.1@ == key,
    ensures
        find_local(l.update(at, e), i, k) == if i == id && k == key {
            Some(e.2)
        } else {
            find_local(l, i, k)
        },
    decreases at,
{
    if at == 0 {
        assert(l.update(at, e).drop_first() =~= l.drop_first());
        assert(l.update(at, e)[0] == e);
    } else {
        assert(l.update(at, e)[0] == l[0]);
        assert(l.update(at, e).drop_first() =~= l.drop_first().update(at - 1, e));
        assert forall|j: int| 0 <= j < at - 1 implies !((#[trigger] l.drop_first()[j]).0 == id
            && l.drop_first()[j].1@ == key) by {
            assert(l.drop_first()[j] == l[j + 1]);
        }
        lemma_find_local_update_one(l.drop_first(), at - 1, e, id, key, i, k);
    }
}

/// The session values other than that of `key` in environment `id`.
pub open spec fn without_local(l: Seq<(ResourceId, String, String)>, id: ResourceId, key: Seq<char>) -> Seq<(ResourceId, String, String)>
    decreases l.len(),
{
    if l.len() == 0 {
        Seq::empty()
    } else {
        let rest = without_local(l.drop_last(), id, key);
        if l.last().0 == id && l.last().1@ == key {
            rest
        } else {
            rest.push(l.last())
        }
    }
}

proof fn lemma_without_local(l: Seq<(ResourceId, String, String)>, id: ResourceId, key: Seq<char>, i: ResourceId, k: Seq<char>)
    ensures
        find_local(without_local(l, id, key), i, k) == if i == id && k == key {
            None
        } else {
            find_local(l, i, k)
        },
    decreases l.len(),
{
    if l.len() > 0 {
        lemma_without_local(l.drop_last(), id, key, i, k);
        lemma_find_local_last(l, i, k);
        let rest = without_local(l.drop_last(), id, key);
        if !(l.last().0 == id && l.last().1@ == key) {
            lemma_find_local_last(rest.push(l.last()), i, k);
            assert(rest.push(l.last()).drop_last() =~= rest);
        }
    }
}

/// Entries of `without_local` come from the list in order: it keeps the
/// list's absence of repeated keys.
proof fn lemma_without_local_subseq(l: Seq<(ResourceId, String, String)>, id: ResourceId, key: Seq<char>)
    requires
        forall|i: int, j: int|
            0 <= i < j < l.len() ==> !((#[trigger] l[i]).0 == (#[trigger] l[j]).0 && l[i].1@ == l[j].1@),
    ensures
        forall|i: int, j: int|
            0 <= i < j < without_local(l, id, key).len() ==> !((#[trigger] without_local(l, id, key)[i]).0 == (
            #[trigger] without_local(l, id, key)[j]).0 && without_local(l, id, key)[i].1@ == without_local(l, id, key)[j].1@),
        forall|i: int|
            0 <= i < without_local(l, id, key).len() ==> l.contains(#[trigger] without_local(l, id, key)[i]),
    decreases l.len(),
{
    if l.len() > 0 {
        let init = l.drop_last();
        lemma_without_local_subseq(init, id, key);
        let rest = without_local(init, id, key);
        assert forall|i: int| 0 <= i < rest.len() implies l.contains(#[trigger] rest[i]) by {
            assert(init.contains(rest[i]));
            let m = choose|m: int| 0 <= m < init.len() && init[m] == rest[i];
            assert(l[m] == rest[i]);
        }
        if !(l.last().0 == id && l.last().1@ == key) {
            let w = rest.push(l.last());
            assert forall|i: int, j: int| 0 <= i < j < w.len() implies !((#[trigger] w[i]).0 == (#[trigger] w[j]).0 && w[i].1@ == w[j].1@) by {
                if j == rest.len() {
                    let m = choose|m: int| 0 <= m < init.len() && init[m] == rest[i];
                    assert(l[m] == w[i]);
                    assert(l[l.len() - 1] == w[j]);
                } else {
                    assert(w[i] == rest[i] && w[j] == rest[j]);
                }
            }
            assert forall|i: int| 0 <= i < w.len() implies l.contains(#[trigger] w[i]) by {
                if i == rest.len() {
                    assert(l[l.len() - 1] == w[i]);
                } else {
                    assert(w[i] == rest[i]);
                }
            }
        }
    }
}

/// How `find_local` splits over the last entry.
proof fn lemma_find_local_last(l: Seq<(ResourceId, String, String)>, i: ResourceId, k: Seq<char>)
    requires
        l.len() > 0,
    ensures
        find_local(l, i, k) == match find_local(l.drop_last(), i, k) {
            Some(s) => Some(s),
            None => if l.last().0 == i && l.last().1@ == k {
                Some(l.last().2)
            } else {
                None
            },
        },
    decreases l.len(),
{
    if l.len() > 1 {
        assert(l.drop_first().drop_last() =~= l.drop_last().drop_first());
        lemma_find_local_last(l.drop_first(), i, k);
    } else {
        assert(l.drop_last() =~= Seq::<(ResourceId, String, String)>::empty());
        assert(l.drop_first() =~= Seq::<(ResourceId, String, String)>::empty());
    }
}

impl EnvironmentManager {
    /// Drops the session value of `key` in environment `id`.
    fn remove_local(&mut self, id: ResourceId, key: &str)
        requires
            old(self).wf(),
        ensures
            final(self).wf(),
            final(self).sessions() == without_local(old(self).sessions(), id, key@),
            final(self).session(id, key@) is None,
            forall|i: ResourceId, k: Seq<char>|
                !(i == id && k == key@) ==> #[trigger] final(self).session(i, k) == old(self).session(i, k),
            final(self).docs() == old(self).docs(),
            final(self).path_list() == old(self).path_list(),
            final(self).root_spec() == old(self).root_spec(),
    {
        let mut kept: Vec<(ResourceId, String, String)> = Vec::new();
        let mut i: usize = 0;
        assert(self.local@.take(0) =~= Seq::<(ResourceId, String, String)>::empty());
        while i < self.local.len()
            invariant
                i <= self.local@.len(),
                self.local == old(self).local,
                kept@ == without_local(self.local@.take(i as int), id, key@),
            decreases self.local.len() - i,
        {
            assert(self.local@.take(i + 1).drop_last() =~= self.local@.take(i as int));
            let e = &self.local[i];
            if !(e.0 == id && str_eq(e.1.as_str(), key)) {
                kept.push((e.0, e.1.clone(), e.2.clone()));
            }
            i = i + 1;
        }
        assert(self.local@.take(i as int) =~= self.local@);
        proof {
            lemma_without_local_subseq(old(self).local@, id, key@);
        }
        self.local = kept;
        proof {
            lemma_without_local(old(self).local@, id, key@, id, key@);
            assert forall|i: ResourceId, k: Seq<char>|
                !(i == id && k == key@) implies #[trigger] self.session(i, k) == old(self).session(i, k) by {
                lemma_without_local(old(self).local@, id, key@, i, k);
            }
        }
    }
}

// ---------------------------------------------------------------------------
// Effective values, rows and missing values
// ---------------------------------------------------------------------------

/// The rows of `vars`, each showing its session value.
pub open spec fn rows_of(vars: Seq<VariableEntry>, local: Seq<(ResourceId, String, String)>, id: ResourceId) -> Seq<RowView>
    decreases vars.len(),
{
    if vars.len() == 0 {
        Seq::empty()
    } else {
        rows_of(vars.drop_last(), local, id).push(row_of(vars.last(), find_local(local, id, vars.last().key@)))
    }
}

/// Keys of the variables whose value is blank.
pub open spec fn blank_keys(vars: Seq<VariableEntry>) -> Seq<Seq<char>>
    decreases vars.len(),
{
    if vars.len() == 0 {
        Seq::empty()
    } else {
        let rest = blank_keys(vars.drop_last());
        if trim_seq(vars.last().value@).len() == 0 {
            rest.push(vars.last().key@)
        } else {
            rest
        }
    }
}

pub open spec fn string_views(s: Seq<String>) -> Seq<Seq<char>> {
    s.map_values(|x: String| x@)
}

/// Strictly increasing: sorted, and no text twice.
pub open spec fn strictly_sorted(s: Seq<Seq<char>>) -> bool {
    forall|i: int, j: int| 0 <= i < j < s.len() ==> seq_le(#[trigger] s[i], #[trigger] s[j]) && s[i] != s[j]
}

proof fn lemma_push_contains(s: Seq<Seq<char>>, v: Seq<char>, y: Seq<char>)
    ensures
        s.push(v).contains(y) <==> (s.contains(y) || y == v),
{
    if s.push(v).contains(y) {
        let k = choose|k: int| 0 <= k < s.push(v).len() && s.push(v)[k] == y;
        if k < s.len() {
            assert(s[k] == y);
        }
    }
    if s.contains(y) {
        let k = choose|k: int| 0 <= k < s.len() && s[k] == y;
        assert(s.push(v)[k] == y);
    }
    if y == v {
        assert(s.push(v)[s.len() as int] == y);
    }
}

/// Sorts texts and drops repeats.
fn sort_dedup(items: Vec<String>) -> (r: Vec<String>)
    ensures
        strictly_sorted(string_views(r@)),
        forall|x: Seq<char>| string_views(r@).contains(x) <==> string_views(items@).contains(x),
{
    let mut out: Vec<String> = Vec::new();
    let mut i: usize = 0;
    while i < items.len()
        invariant
            i <= items.len(),
            strictly_sorted(string_views(out@)),
            forall|x: Seq<char>|
                string_views(out@).contains(x) <==> string_views(items@.take(i as int)).contains(x),
        decreases items.len() - i,
    {
        let x = items[i].clone();
        let ghost before = string_views(out@);
        let mut p: usize = 0;
        while p < out.len() && !str_le(x.as_str(), out[p].as_str())
            invariant
                p <= out.len(),
                before == string_views(out@),
                forall|k: int| 0 <= k < p ==> !seq_le(x@, #[trigger] before[k]),
            decreases out.len() - p,
        {
            p = p + 1;
        }
        proof {
            assert(items@.take(i + 1) =~= items@.take(i as int).push(items@[i as int]));
            assert(string_views(items@.take(i + 1)) =~= string_views(items@.take(i as int)).push(x@));
        }
        if p < out.len() && str_eq(out[p].as_str(), x.as_str()) {
            proof {
                assert(before[p as int] == x@);
                assert forall|y: Seq<char>| string_views(out@).contains(y) <==> string_views(
                    items@.take(i + 1),
                ).contains(y) by {
                    lemma_push_contains(string_views(items@.take(i as int)), x@, y);
                    if y == x@ {
                        assert(before[p as int] == y);
                    }
                }
            }
        } else {
            proof {
                if p < out.len() {
                    lemma_seq_le_total(x@, before[p as int]);
                }
                assert forall|k: int| 0 <= k < p implies seq_le(#[trigger] before[k], x@) && before[k] != x@ by {
                    lemma_seq_le_total(x@, before[k]);
                }
            }
            out.insert(p, x);
            proof {
                let after = string_views(out@);
                assert(after =~= before.insert(p as int, x@));
                assert forall|a: int, b: int| 0 <= a < b < after.len() implies seq_le(
                    #[trigger] after[a],
                    #[trigger] after[b],
                ) && after[a] != after[b] by {
                    if b == p {
                        assert(after[a] == before[a]);
                    } else if a == p {
                        assert(after[b] == before[b - 1]);
                        assert(seq_le(x@, before[p as int]));
                        if b - 1 > p {
                            lemma_seq_le_transitive(x@, before[p as int], before[b - 1]);
                            if x@ == before[b - 1] {
                                lemma_seq_le_antisymmetric(before[p as int], before[b - 1]);
                            }
                        }
                    } else {
                        let a0 = if a < p { a } else { a - 1 };
                        let b0 = if b < p { b } else { b - 1 };
                        assert(after[a] == before[a0]);
                        assert(after[b] == before[b0]);
                    }
                }
                assert forall|y: Seq<char>| after.contains(y) <==> string_views(items@.take(i + 1)).contains(y) by {
                    lemma_push_contains(string_views(items@.take(i as int)), x@, y);
                    if after.contains(y) {
                        let k = choose|k: int| 0 <= k < after.len() && after[k] == y;
                        if k != p {
                            let k0 = if k < p { k } else { k - 1 };
                            assert(after[k] == before[k0]);
                            assert(before.contains(y));
                        }
                    }
                    if before.contains(y) {
                        let k = choose|k: int| 0 <= k < before.len() && before[k] == y;
                        let k1 = if k < p { k } else { k + 1 };
                        assert(after[k1] == y);
                    }
                    if y == x@ {
                        assert(after[p as int] == y);
                    }
                }
            }
        }
        i = i + 1;
    }
    assert(items@.take(i as int) =~= items@);
    out
}

impl EnvironmentManager {
    /// The enabled variables of an environment with session values applied;
    /// for execution only, so callers keep the secret flag for redaction.
    pub fn effective_variables(&self, id: ResourceId) -> (r: Result<Vec<VariableEntry>, EnvironmentError>)
        ensures
            match r {
                Ok(vs) => find_doc(self.docs(), id) matches Some(d) && vs@ == effective(
                    d.variables@,
                    self.sessions(),
                    id,
                ),
                Err(e) => find_doc(self.docs(), id) is None && (e matches EnvironmentError::Missing(x) && x == id),
            },
    {
        let doc = self.get(id)?;
        let vars = &doc.variables;
        let mut out: Vec<VariableEntry> = Vec::new();
        let mut i: usize = 0;
        assert(vars@.take(0) =~= Seq::<VariableEntry>::empty());
        while i < vars.len()
            invariant
                i <= vars@.len(),
                out@ == effective(vars@.take(i as int), self.sessions(), id),
            decreases vars.len() - i,
        {
            assert(vars@.take(i + 1).drop_last() =~= vars@.take(i as int));
            if vars[i].enabled {
                let mut v = vars[i].copy();
                match self.local_index(id, vars[i].key.as_str()) {
                    Some(li) => {
                        v.value = self.local[li].2.clone();
                    },
                    None => {},
                }
                out.push(v);
            }
            i = i + 1;
        }
        assert(vars@.take(i as int) =~= vars@);
        Ok(out)
    }

    /// Table rows of an environment: secret values, defaults and session
    /// values alike, are masked.
    pub fn rows(&self, id: ResourceId) -> (r: Result<Vec<EnvironmentRow>, EnvironmentError>)
        ensures
            match r {
                Ok(rs) => find_doc(self.docs(), id) matches Some(d) && row_views(rs@) == rows_of(
                    d.variables@,
                    self.sessions(),
                    id,
                ),
                Err(e) => find_doc(self.docs(), id) is None && (e matches EnvironmentError::Missing(x) && x == id),
            },
    {
        let doc = self.get(id)?;
        let vars = &doc.variables;
        let mut out: Vec<EnvironmentRow> = Vec::new();
        let mut i: usize = 0;
        assert(vars@.take(0) =~= Seq::<VariableEntry>::empty());
        assert(row_views(out@) =~= Seq::<RowView>::empty());
        while i < vars.len()
            invariant
                i <= vars@.len(),
                row_views(out@) == rows_of(vars@.take(i as int), self.sessions(), id),
            decreases vars.len() - i,
        {
            assert(vars@.take(i + 1).drop_last() =~= vars@.take(i as int));
            let v = &vars[i];
            let hide = v.is_secret || v.value_type == VariableType::SecretReference;
            let default_value = if hide {
                ENV_SECRET_MASK.to_owned()
            } else {
                v.value.clone()
            };
            let current_value = match self.local_index(id, v.key.as_str()) {
                Some(li) => Some(
                    if hide {
                        ENV_SECRET_MASK.to_owned()
                    } else {
                        self.local[li].2.clone()
                    },
                ),
                None => None,
            };
            let row = EnvironmentRow {
                key: v.key.clone(),
                default_value,
                current_value,
                is_secret: v.is_secret,
                enabled: v.enabled,
                value_type: v.value_type,
                description: copy_opt_string(&v.description),
            };
            let ghost prev = row_views(out@);
            out.push(row);
            assert(row_views(out@) =~= prev.push(row@));
            i = i + 1;
        }
        assert(vars@.take(i as int) =~= vars@);
        Ok(out)
    }

    /// Keys of an environment whose effective value is blank.
    pub fn missing_values(&self, id: ResourceId) -> (r: Result<Vec<String>, EnvironmentError>)
        ensures
            match r {
                Ok(ks) => find_doc(self.docs(), id) matches Some(d) && string_views(ks@) == blank_keys(
                    effective(d.variables@, self.sessions(), id),
                ),
                Err(e) => find_doc(self.docs(), id) is None && (e matches EnvironmentError::Missing(x) && x == id),
            },
    {
        let vs = self.effective_variables(id)?;
        let mut out: Vec<String> = Vec::new();
        let mut i: usize = 0;
        assert(vs@.take(0) =~= Seq::<VariableEntry>::empty());
        assert(string_views(out@) =~= Seq::<Seq<char>>::empty());
        while i < vs.len()
            invariant
                i <= vs@.len(),
                string_views(out@) == blank_keys(vs@.take(i as int)),
            decreases vs.len() - i,
        {
            assert(vs@.take(i + 1).drop_last() =~= vs@.take(i as int));
            let t = trim(vs[i].value.as_str());
            if t.as_str().is_empty() {
                let ghost prev = string_views(out@);
                out.push(vs[i].key.clone());
                assert(string_views(out@) =~= prev.push(vs@[i as int].key@));
            }
            i = i + 1;
        }
        assert(vs@.take(i as int) =~= vs@);
        Ok(out)
    }
}

// ---------------------------------------------------------------------------
// Comparing environments
// ---------------------------------------------------------------------------

/// Whether some variable of `vs` has key `key` and a non-blank value.
pub open spec fn has_value(vs: Seq<VariableEntry>, key: Seq<char>) -> bool {
    exists|i: int| 0 <= i < vs.len() && (#[trigger] vs[i]).key@ == key && trim_seq(vs[i].value@).len() > 0
}

/// Keys of the enabled variables of `reference` that have no value in `eff`.
pub open spec fn reference_gaps(reference: Seq<VariableEntry>, eff: Seq<VariableEntry>) -> Seq<Seq<char>>
    decreases reference.len(),
{
    if reference.len() == 0 {
        Seq::empty()
    } else {
        let rest = reference_gaps(reference.drop_last(), eff);
        let v = reference.last();
        if v.enabled && !has_value(eff, v.key@) {
            rest.push(v.key@)
        } else {
            rest
        }
    }
}

pub ghost struct DiffView {
    pub key: Seq<char>,
    pub left: Option<RowView>,
    pub right: Option<RowView>,
}

impl View for EnvironmentDifference {
    type V = DiffView;

    open spec fn view(&self) -> DiffView {
        DiffView {
            key: self.key@,
            left: match self.left {
                Some(r) => Some(r@),
                None => None,
            },
            right: match self.right {
                Some(r) => Some(r@),
                None => None,
            },
        }
    }
}

/// The first row with key `key`.
pub open spec fn first_row(rows: Seq<RowView>, key: Seq<char>) -> Option<RowView>
    decreases rows.len(),
{
    if rows.len() == 0 {
        None
    } else if rows[0].key == key {
        Some(rows[0])
    } else {
        first_row(rows.drop_first(), key)
    }
}

pub open spec fn row_keys(rows: Seq<RowView>) -> Seq<Seq<char>> {
    rows.map_values(|r: RowView| r.key)
}

impl EnvironmentRow {
    pub fn copy(&self) -> (r: Self)
        ensures
            r@ == self@,
    {
        EnvironmentRow {
            key: self.key.clone(),
            default_value: self.default_value.clone(),
            current_value: copy_opt_string(&self.current_value),
            is_secret: self.is_secret,
            enabled: self.enabled,
            value_type: self.value_type,
            description: copy_opt_string(&self.description),
        }
    }
}

fn opt_str_eq(a: &Option<String>, b: &Option<String>) -> (r: bool)
    ensures
        r == (match (*a, *b) {
            (Some(x), Some(y)) => x@ == y@,
            (None, None) => true,
            _ => false,
        }),
{
    match (a, b) {
        (Some(x), Some(y)) => str_eq(x.as_str(), y.as_str()),
        (None, None) => true,
        _ => false,
    }
}

fn rows_equal(a: &Option<EnvironmentRow>, b: &Option<EnvironmentRow>) -> (r: bool)
    ensures
        r == (match (*a, *b) {
            (Some(x), Some(y)) => x@ == y@,
            (None, None) => true,
            _ => false,
        }),
{
    match (a, b) {
        (Some(x), Some(y)) => {
            let same = str_eq(x.key.as_str(), y.key.as_str()) && str_eq(
                x.default_value.as_str(),
                y.default_value.as_str(),
            ) && opt_str_eq(&x.current_value, &y.current_value) && x.is_secret == y.is_secret
                && x.enabled == y.enabled && x.value_type == y.value_type && opt_str_eq(
                &x.description,
                &y.description,
            );
            proof {
                if same {
                    assert(x@.current_value == y@.current_value);
                    assert(x@.description == y@.description);
                }
            }
            same
        },
        (None, None) => true,
        _ => false,
    }
}

fn first_row_copy(rows: &Vec<EnvironmentRow>, key: &str) -> (r: Option<EnvironmentRow>)
    ensures
        match r {
            Some(x) => first_row(row_views(rows@), key@) == Some(x@),
            None => first_row(row_views(rows@), key@) is None,
        },
{
    let ghost rv = row_views(rows@);
    let mut i: usize = 0;
    assert(rv.skip(0) =~= rv);
    while i < rows.len()
        invariant
            i <= rows@.len() == rv.len(),
            rv == row_views(rows@),
            first_row(rv, key@) == first_row(rv.skip(i as int), key@),
        decreases rows.len() - i,
    {
        if str_eq(rows[i].key.as_str(), key) {
            assert(rv.skip(i as int)[0] == rows@[i as int]@);
            return Some(rows[i].copy());
        }
        assert(rv.skip(i as int).drop_first() =~= rv.skip(i + 1));
        i = i + 1;
    }
    assert(rv.skip(i as int) =~= Seq::<RowView>::empty());
    None
}

impl EnvironmentManager {
    /// Keys that a target environment lacks compared with a reference: its
    /// own blank enabled keys, and enabled reference keys without a value
    /// in it. Names only, sorted, each once.
    pub fn missing_values_against(&self, target: ResourceId, reference: ResourceId) -> (r: Result<Vec<String>, EnvironmentError>)
        ensures
            match r {
                Ok(ks) => find_doc(self.docs(), target) matches Some(d) && find_doc(self.docs(), reference) matches Some(rd) && {
                    let eff = effective(d.variables@, self.sessions(), target);
                    &&& strictly_sorted(string_views(ks@))
                    &&& forall|x: Seq<char>|
                        #[trigger] string_views(ks@).contains(x) <==> (blank_keys(eff).contains(x)
                            || reference_gaps(rd.variables@, eff).contains(x))
                },
                Err(e) => e matches EnvironmentError::Missing(x) && (if find_doc(self.docs(), target) is None {
                    x == target
                } else {
                    x == reference && find_doc(self.docs(), reference) is None
                }),
            },
    {
        let eff = self.effective_variables(target)?;
        let mut keys = self.missing_values(target)?;
        let rdoc = self.get(reference)?;
        let ghost base = string_views(keys@);
        let rv = &rdoc.variables;
        let mut i: usize = 0;
        assert(rv@.take(0) =~= Seq::<VariableEntry>::empty());
        assert(base + reference_gaps(rv@.take(0), eff@) =~= base);
        while i < rv.len()
            invariant
                i <= rv@.len(),
                string_views(keys@) == base + reference_gaps(rv@.take(i as int), eff@),
            decreases rv.len() - i,
        {
            assert(rv@.take(i + 1).drop_last() =~= rv@.take(i as int));
            if rv[i].enabled {
                let mut found = false;
                let mut j: usize = 0;
                while j < eff.len()
                    invariant
                        j <= eff@.len(),
                        i < rv@.len(),
                        found == exists|k: int|
                            0 <= k < j && (#[trigger] eff@[k]).key@ == rv@[i as int].key@ && trim_seq(
                                eff@[k].value@,
                            ).len() > 0,
                    decreases eff.len() - j,
                {
                    let t = trim(eff[j].value.as_str());
                    if str_eq(eff[j].key.as_str(), rv[i].key.as_str()) && !t.as_str().is_empty() {
                        found = true;
                        assert(eff@[j as int].key@ == rv@[i as int].key@);
                    }
                    j = j + 1;
                }
                if !found {
                    let ghost prev = string_views(keys@);
                    keys.push(rv[i].key.clone());
                    assert(string_views(keys@) =~= prev.push(rv@[i as int].key@));
                }
            }
            i = i + 1;
        }
        assert(rv@.take(i as int) =~= rv@);
        let ghost all = string_views(keys@);
        let sorted = sort_dedup(keys);
        proof {
            assert forall|x: Seq<char>| #[trigger] all.contains(x) <==> (base.contains(x)
                || reference_gaps(rv@, eff@).contains(x)) by {
                if all.contains(x) {
                    let k = choose|k: int| 0 <= k < all.len() && all[k] == x;
                    if k >= base.len() {
                        assert(reference_gaps(rv@, eff@)[k - base.len()] == x);
                    }
                }
                if base.contains(x) {
                    let k = choose|k: int| 0 <= k < base.len() && base[k] == x;
                    assert(all[k] == x);
                }
                if reference_gaps(rv@, eff@).contains(x) {
                    let k = choose|k: int| 0 <= k < reference_gaps(rv@, eff@).len() && reference_gaps(rv@, eff@)[k] == x;
                    assert(all[base.len() + k] == x);
                }
            }
        }
        Ok(sorted)
    }

    /// The keys on which two environments' rows differ, sorted, with both
    /// rows. Rows mask secrets, so secret values are neither compared nor
    /// shown.
    pub fn diff(&self, left: ResourceId, right: ResourceId) -> (r: Result<Vec<EnvironmentDifference>, EnvironmentError>)
        ensures
            match r {
                Ok(ds) => find_doc(self.docs(), left) matches Some(dl) && find_doc(self.docs(), right) matches Some(dr) && {
                    let a = rows_of(dl.variables@, self.sessions(), left);
                    let b = rows_of(dr.variables@, self.sessions(), right);
                    let keys = diff_keys(ds@);
                    &&& strictly_sorted(keys)
                    &&& forall|x: Seq<char>|
                        #[trigger] keys.contains(x) <==> ((row_keys(a).contains(x) || row_keys(b).contains(x))
                            && first_row(a, x) != first_row(b, x))
                    &&& forall|i: int|
                        0 <= i < ds@.len() ==> (#[trigger] ds@[i])@.left == first_row(a, ds@[i]@.key)
                            && ds@[i]@.right == first_row(b, ds@[i]@.key)
                },
                Err(e) => e matches EnvironmentError::Missing(x) && (if find_doc(self.docs(), left) is None {
                    x == left
                } else {
                    x == right && find_doc(self.docs(), right) is None
                }),
            },
    {
        let a = self.rows(left)?;
        let b = self.rows(right)?;
        let ghost av = row_views(a@);
        let ghost bv = row_views(b@);
        let mut all: Vec<String> = Vec::new();
        let mut i: usize = 0;
        while i < a.len()
            invariant
                i <= a@.len(),
                av == row_views(a@),
                string_views(all@) == row_keys(av.take(i as int)),
            decreases a.len() - i,
        {
            let ghost prev = string_views(all@);
            all.push(a[i].key.clone());
            assert(string_views(all@) =~= prev.push(a@[i as int].key@));
            assert(row_keys(av.take(i + 1)) =~= row_keys(av.take(i as int)).push(av[i as int].key));
            i = i + 1;
        }
        assert(av.take(a@.len() as int) =~= av);
        let ghost na = string_views(all@);
        let mut j: usize = 0;
        while j < b.len()
            invariant
                j <= b@.len(),
                bv == row_views(b@),
                na == row_keys(av),
                string_views(all@) == na + row_keys(bv.take(j as int)),
            decreases b.len() - j,
        {
            let ghost prev = string_views(all@);
            all.push(b[j].key.clone());
            assert(string_views(all@) =~= prev.push(b@[j as int].key@));
            assert(row_keys(bv.take(j + 1)) =~= row_keys(bv.take(j as int)).push(bv[j as int].key));
            j = j + 1;
        }
        assert(bv.take(b@.len() as int) =~= bv);
        let ghost full = string_views(all@);
        proof {
            assert forall|x: Seq<char>| full.contains(x) <==> (row_keys(av).contains(x) || row_keys(bv).contains(x)) by {
                if full.contains(x) {
                    let k = choose|k: int| 0 <= k < full.len() && full[k] == x;
                    if k >= na.len() {
                        assert(row_keys(bv)[k - na.len()] == x);
                    } else {
                        assert(row_keys(av)[k] == x);
                    }
                }
                if row_keys(av).contains(x) {
                    let k = choose|k: int| 0 <= k < row_keys(av).len() && row_keys(av)[k] == x;
                    assert(full[k] == x);
                }
                if row_keys(bv).contains(x) {
                    let k = choose|k: int| 0 <= k < row_keys(bv).len() && row_keys(bv)[k] == x;
                    assert(full[na.len() + k] == x);
                }
            }
        }
        let keys = sort_dedup(all);
        let ghost kv = string_views(keys@);
        let mut out: Vec<EnvironmentDifference> = Vec::new();
        let mut k: usize = 0;
        assert(kv.take(0) =~= Seq::<Seq<char>>::empty());
        assert(diff_keys(out@) =~= Seq::<Seq<char>>::empty());
        while k < keys.len()
            invariant
                k <= keys@.len(),
                kv == string_views(keys@),
                av == row_views(a@),
                bv == row_views(b@),
                diff_keys(out@) == differing(kv.take(k as int), av, bv),
                forall|i: int| 0 <= i < out@.len() ==> (#[trigger] out@[i])@.left == first_row(av, out@[i]@.key)
                    && out@[i]@.right == first_row(bv, out@[i]@.key),
            decreases keys.len() - k,
        {
            let key = keys[k].as_str();
            let l = first_row_copy(&a, key);
            let r = first_row_copy(&b, key);
            let ghost before = out@;
            assert(kv.take(k + 1).drop_last() =~= kv.take(k as int));
            if !rows_equal(&l, &r) {
                let d = EnvironmentDifference { key: keys[k].clone(), left: l, right: r };
                out.push(d);
                assert(diff_keys(out@) =~= diff_keys(before).push(kv[k as int]));
            } else {
                proof {
                    if l is Some && r is Some {
                        assert(first_row(av, kv[k as int]) == first_row(bv, kv[k as int]));
                    }
                }
            }
            k = k + 1;
        }
        assert(kv.take(k as int) =~= kv);
        proof {
            lemma_differing(kv, av, bv);
        }
        Ok(out)
    }
}

pub open spec fn diff_keys(ds: Seq<EnvironmentDifference>) -> Seq<Seq<char>> {
    ds.map_values(|d: EnvironmentDifference| d@.key)
}

/// The keys of `ks` on which the first rows of `a` and `b` differ.
pub open spec fn differing(ks: Seq<Seq<char>>, a: Seq<RowView>, b: Seq<RowView>) -> Seq<Seq<char>>
    decreases ks.len(),
{
    if ks.len() == 0 {
        Seq::empty()
    } else {
        let rest = differing(ks.drop_last(), a, b);
        if first_row(a, ks.last()) != first_row(b, ks.last()) {
            rest.push(ks.last())
        } else {
            rest
        }
    }
}

proof fn lemma_differing(ks: Seq<Seq<char>>, a: Seq<RowView>, b: Seq<RowView>)
    ensures
        forall|x: Seq<char>|
            #[trigger] differing(ks, a, b).contains(x) <==> (ks.contains(x) && first_row(a, x) != first_row(b, x)),
        strictly_sorted(ks) ==> strictly_sorted(differing(ks, a, b)),
    decreases ks.len(),
{
    if ks.len() > 0 {
        let init = ks.drop_last();
        lemma_differing(init, a, b);
        let rest = differing(init, a, b);
        assert forall|x: Seq<char>| ks.contains(x) <==> (init.contains(x) || x == ks.last()) by {
            assert(ks =~= init.push(ks.last()));
            lemma_push_contains(init, ks.last(), x);
        }
        assert forall|x: Seq<char>|
            #[trigger] differing(ks, a, b).contains(x) <==> (ks.contains(x) && first_row(a, x) != first_row(b, x)) by {
            if first_row(a, ks.last()) != first_row(b, ks.last()) {
                lemma_push_contains(rest, ks.last(), x);
            }
        }
        if strictly_sorted(ks) {
            assert(strictly_sorted(init)) by {
                assert forall|i: int, j: int| 0 <= i < j < init.len() implies seq_le(#[trigger] init[i], #[trigger] init[j]) && init[i] != init[j] by {
                    assert(init[i] == ks[i]);
                    assert(init[j] == ks[j]);
                }
            }
            if first_row(a, ks.last()) != first_row(b, ks.last()) {
                let d = rest.push(ks.last());
                assert forall|i: int, j: int| 0 <= i < j < d.len() implies seq_le(#[trigger] d[i], #[trigger] d[j]) && d[i] != d[j] by {
                    if j == rest.len() {
                        assert(rest.contains(rest[i]));
                        assert(init.contains(d[i]));
                        let m = choose|m: int| 0 <= m < init.len() && init[m] == d[i];
                        assert(ks[m] == d[i]);
                        assert(ks[ks.len() - 1] == ks.last());
                    } else {
                        assert(d[i] == rest[i]);
                        assert(d[j] == rest[j]);
                    }
                }
            }
        }
    }
}

// ---------------------------------------------------------------------------
// Ordering by name and identifier
// ---------------------------------------------------------------------------

/// Order of two texts pairs: by the first text, then the second.
pub open spec fn pair_le(a1: Seq<char>, a2: Seq<char>, b1: Seq<char>, b2: Seq<char>) -> bool {
    !seq_le(b1, a1) || (a1 == b1 && seq_le(a2, b2))
}

proof fn lemma_pair_le_total(a1: Seq<char>, a2: Seq<char>, b1: Seq<char>, b2: Seq<char>)
    ensures
        pair_le(a1, a2, b1, b2) || pair_le(b1, b2, a1, a2),
{
    lemma_seq_le_total(a1, b1);
    lemma_seq_le_total(a2, b2);
    if seq_le(a1, b1) && seq_le(b1, a1) {
        lemma_seq_le_antisymmetric(a1, b1);
    }
}

proof fn lemma_pair_le_transitive(
    a1: Seq<char>,
    a2: Seq<char>,
    b1: Seq<char>,
    b2: Seq<char>,
    c1: Seq<char>,
    c2: Seq<char>,
)
    requires
        pair_le(a1, a2, b1, b2),
        pair_le(b1, b2, c1, c2),
    ensures
        pair_le(a1, a2, c1, c2),
{
    lemma_seq_le_total(a1, b1);
    lemma_seq_le_total(b1, c1);
    lemma_seq_le_total(a1, c1);
    if seq_le(c1, a1) {
        if a1 != b1 {
            if seq_le(b1, a1) {
                lemma_seq_le_antisymmetric(a1, b1);
            }
            lemma_seq_le_transitive(c1, a1, b1);
        }
        if b1 != c1 {
            if seq_le(c1, b1) {
                lemma_seq_le_antisymmetric(b1, c1);
            }
            lemma_seq_le_transitive(b1, c1, a1);
        }
        if a1 == b1 && b1 == c1 {
            lemma_seq_le_transitive(a2, b2, c2);
        }
    }
}

/// Environments in the order of the picker: by name, then identifier.
pub open spec fn env_le(a: EnvironmentDocument, b: EnvironmentDocument) -> bool {
    pair_le(a.name@, uuid_text(a.id.0), b.name@, uuid_text(b.id.0))
}

pub open spec fn derefs(s: Seq<&EnvironmentDocument>) -> Seq<EnvironmentDocument> {
    s.map_values(|d: &EnvironmentDocument| *d)
}

pub open spec fn envs_sorted(s: Seq<EnvironmentDocument>) -> bool {
    forall|i: int, j: int| 0 <= i < j < s.len() ==> env_le(#[trigger] s[i], #[trigger] s[j])
}

fn env_leq(a: &EnvironmentDocument, b: &EnvironmentDocument) -> (r: bool)
    ensures
        r == env_le(*a, *b),
{
    let ia = uuid_string(a.id.0);
    let ib = uuid_string(b.id.0);
    !str_le(b.name.as_str(), a.name.as_str()) || (str_eq(a.name.as_str(), b.name.as_str()) && str_le(
        ia.as_str(),
        ib.as_str(),
    ))
}

impl EnvironmentManager {
    /// The environments, by name and then identifier.
    pub fn list(&self) -> (r: Vec<&EnvironmentDocument>)
        ensures
            derefs(r@).to_multiset() == self.docs().to_multiset(),
            envs_sorted(derefs(r@)),
    {
        let mut out: Vec<&EnvironmentDocument> = Vec::new();
        let mut i: usize = 0;
        assert(self.documents@.take(0) =~= Seq::<EnvironmentDocument>::empty());
        assert(derefs(out@) =~= Seq::<EnvironmentDocument>::empty());
        while i < self.documents.len()
            invariant
                i <= self.documents@.len(),
                derefs(out@).to_multiset() == self.documents@.take(i as int).to_multiset(),
                envs_sorted(derefs(out@)),
            decreases self.documents.len() - i,
        {
            let x = &self.documents[i];
            let ghost before = derefs(out@);
            let mut p: usize = 0;
            while p < out.len() && env_leq(out[p], x)
                invariant
                    p <= out.len(),
                    before == derefs(out@),
                    forall|k: int| 0 <= k < p ==> env_le(#[trigger] before[k], *x),
                decreases out.len() - p,
            {
                p = p + 1;
            }
            proof {
                if p < out.len() {
                    lemma_pair_le_total(before[p as int].name@, uuid_text(before[p as int].id.0), x.name@, uuid_text(x.id.0));
                }
            }
            out.insert(p, x);
            proof {
                let after = derefs(out@);
                assert(after =~= before.insert(p as int, *x));
                assert(self.documents@.take(i + 1) =~= self.documents@.take(i as int).push(*x));
                assert forall|a: int, b: int| 0 <= a < b < after.len() implies env_le(#[trigger] after[a], #[trigger] after[b]) by {
                    if b == p {
                        assert(after[a] == before[a]);
                    } else if a == p {
                        assert(after[b] == before[b - 1]);
                        if b - 1 > p {
                            let y = before[p as int];
                            let z = before[b - 1];
                            lemma_pair_le_transitive(x.name@, uuid_text(x.id.0), y.name@, uuid_text(y.id.0), z.name@, uuid_text(z.id.0));
                        }
                    } else {
                        let a0 = if a < p { a } else { a - 1 };
                        let b0 = if b < p { b } else { b - 1 };
                        assert(after[a] == before[a0]);
                        assert(after[b] == before[b0]);
                    }
                }
            }
            i = i + 1;
        }
        assert(self.documents@.take(i as int) =~= self.documents@);
        out
    }
}

// ---------------------------------------------------------------------------
// Local snapshot
// ---------------------------------------------------------------------------

pub ghost struct OverrideView {
    pub environment: ResourceId,
    pub key: Seq<char>,
    pub value: Seq<char>,
    pub value_type: VariableType,
}

impl View for LocalOverride {
    type V = OverrideView;

    open spec fn view(&self) -> OverrideView {
        OverrideView {
            environment: self.environment,
            key: self.key@,
            value: self.value@,
            value_type: self.value_type,
        }
    }
}

pub open spec fn override_views(s: Seq<LocalOverride>) -> Seq<OverrideView> {
    s.map_values(|o: LocalOverride| o@)
}

/// The variable a session value belongs to.
pub open spec fn var_for(docs: Seq<EnvironmentDocument>, id: ResourceId, key: Seq<char>) -> Option<VariableEntry> {
    match find_doc(docs, id) {
        Some(d) => find_var(d.variables@, key),
        None => None,
    }
}

/// Whether a session value belongs to a public variable.
pub open spec fn public_var(docs: Seq<EnvironmentDocument>, id: ResourceId, key: Seq<char>) -> bool {
    var_for(docs, id, key) matches Some(v) && !hidden(v)
}

/// The session values that may be saved: those of public variables.
pub open spec fn saved_values(docs: Seq<EnvironmentDocument>, local: Seq<(ResourceId, String, String)>) -> Seq<OverrideView>
    decreases local.len(),
{
    if local.len() == 0 {
        Seq::empty()
    } else {
        let rest = saved_values(docs, local.drop_last());
        let e = local.last();
        match var_for(docs, e.0, e.1@) {
            Some(v) => if !hidden(v) {
                rest.push(OverrideView { environment: e.0, key: e.1@, value: e.2@, value_type: v.value_type })
            } else {
                rest
            },
            None => rest,
        }
    }
}

pub open spec fn override_le(a: OverrideView, b: OverrideView) -> bool {
    pair_le(uuid_text(a.environment.0), a.key, uuid_text(b.environment.0), b.key)
}

pub open spec fn overrides_sorted(s: Seq<OverrideView>) -> bool {
    forall|i: int, j: int| 0 <= i < j < s.len() ==> override_le(#[trigger] s[i], #[trigger] s[j])
}

fn override_leq(a: &LocalOverride, b: &LocalOverride) -> (r: bool)
    ensures
        r == override_le(a@, b@),
{
    let ia = uuid_string(a.environment.0);
    let ib = uuid_string(b.environment.0);
    !str_le(ib.as_str(), ia.as_str()) || (str_eq(ia.as_str(), ib.as_str()) && str_le(
        a.key.as_str(),
        b.key.as_str(),
    ))
}

impl LocalOverride {
    pub fn copy(&self) -> (r: Self)
        ensures
            r@ == self@,
    {
        LocalOverride {
            environment: self.environment,
            key: self.key.clone(),
            value: self.value.clone(),
            value_type: self.value_type,
        }
    }
}

fn sort_overrides(items: Vec<LocalOverride>) -> (r: Vec<LocalOverride>)
    ensures
        override_views(r@).to_multiset() == override_views(items@).to_multiset(),
        overrides_sorted(override_views(r@)),
{
    let mut out: Vec<LocalOverride> = Vec::new();
    let ghost all = override_views(items@);
    let mut i: usize = 0;
    assert(all.take(0) =~= Seq::<OverrideView>::empty());
    assert(override_views(out@) =~= Seq::<OverrideView>::empty());
    while i < items.len()
        invariant
            i <= items@.len(),
            all == override_views(items@),
            override_views(out@).to_multiset() == all.take(i as int).to_multiset(),
            overrides_sorted(override_views(out@)),
        decreases items.len() - i,
    {
        let x = items[i].copy();
        let ghost before = override_views(out@);
        let mut p: usize = 0;
        while p < out.len() && override_leq(&out[p], &x)
            invariant
                p <= out.len(),
                before == override_views(out@),
                forall|k: int| 0 <= k < p ==> override_le(#[trigger] before[k], x@),
            decreases out.len() - p,
        {
            p = p + 1;
        }
        proof {
            if p < out.len() {
                lemma_pair_le_total(uuid_text(before[p as int].environment.0), before[p as int].key, uuid_text(x@.environment.0), x@.key);
            }
        }
        out.insert(p, x);
        proof {
            let after = override_views(out@);
            assert(after =~= before.insert(p as int, x@));
            assert(all.take(i + 1) =~= all.take(i as int).push(x@));
            assert forall|a: int, b: int| 0 <= a < b < after.len() implies override_le(#[trigger] after[a], #[trigger] after[b]) by {
                if b == p {
                    assert(after[a] == before[a]);
                } else if a == p {
                    assert(after[b] == before[b - 1]);
                    if b - 1 > p {
                        let y = before[p as int];
                        let z = before[b - 1];
                        lemma_pair_le_transitive(uuid_text(x@.environment.0), x@.key, uuid_text(y.environment.0), y.key, uuid_text(z.environment.0), z.key);
                    }
                } else {
                    let a0 = if a < p { a } else { a - 1 };
                    let b0 = if b < p { b } else { b - 1 };
                    assert(after[a] == before[a0]);
                    assert(after[b] == before[b0]);
                }
            }
        }
        i = i + 1;
    }
    assert(all.take(i as int) =~= all);
    out
}

fn var_index_for(docs: &Vec<EnvironmentDocument>, di: usize, key: &str) -> (r: Option<usize>)
    requires
        di < docs@.len(),
    ensures
        match r {
            Some(k) => k < docs@[di as int].variables@.len() && find_var(docs@[di as int].variables@, key@) == Some(
                docs@[di as int].variables@[k as int],
            ),
            None => find_var(docs@[di as int].variables@, key@) is None,
        },
{
    find_var_index(&docs[di].variables, key)
}

impl EnvironmentManager {
    /// The session values to save locally: public variables only, never a
    /// secret or a vault reference, sorted by environment and key.
    pub fn local_snapshot(&self, active: Option<ResourceId>) -> (r: Result<Vec<LocalOverride>, EnvironmentError>)
        ensures
            match r {
                Ok(ovs) => {
                    &&& (active matches Some(a) ==> find_doc(self.docs(), a) is Some)
                    &&& override_views(ovs@).to_multiset() == saved_values(self.docs(), self.sessions()).to_multiset()
                    &&& overrides_sorted(override_views(ovs@))
                    &&& forall|i: int|
                        0 <= i < ovs@.len() ==> public_var(self.docs(), (#[trigger] ovs@[i]).environment, ovs@[i].key@)
                },
                Err(e) => e matches EnvironmentError::Missing(x) && find_doc(self.docs(), x) is None && (active == Some(x)
                    || exists|i: int| 0 <= i < self.sessions().len() && (#[trigger] self.sessions()[i]).0 == x),
            },
    {
        match active {
            Some(a) => {
                self.get(a)?;
            },
            None => {},
        }
        let mut out: Vec<LocalOverride> = Vec::new();
        let mut i: usize = 0;
        assert(self.local@.take(0) =~= Seq::<(ResourceId, String, String)>::empty());
        assert(override_views(out@) =~= Seq::<OverrideView>::empty());
        while i < self.local.len()
            invariant
                i <= self.local@.len(),
                override_views(out@) == saved_values(self.docs(), self.local@.take(i as int)),
            decreases self.local.len() - i,
        {
            assert(self.local@.take(i + 1).drop_last() =~= self.local@.take(i as int));
            let e = &self.local[i];
            let di = match self.doc_index(e.0) {
                Some(di) => di,
                None => {
                    assert(self.sessions()[i as int].0 == e.0);
                    return Err(EnvironmentError::Missing(e.0));
                },
            };
            match var_index_for(&self.documents, di, e.1.as_str()) {
                Some(vi) => {
                    let v = &self.documents[di].variables[vi];
                    if !v.is_secret && v.value_type != VariableType::SecretReference {
                        let o = LocalOverride {
                            environment: e.0,
                            key: e.1.clone(),
                            value: e.2.clone(),
                            value_type: v.value_type,
                        };
                        let ghost prev = override_views(out@);
                        out.push(o);
                        assert(override_views(out@) =~= prev.push(o@));
                    }
                },
                None => {},
            }
            i = i + 1;
        }
        assert(self.local@.take(i as int) =~= self.local@);
        let ghost unsorted = override_views(out@);
        proof {
            lemma_saved_public(self.docs(), self.local@);
        }
        let sorted = sort_overrides(out);
        proof {
            assert forall|i: int| 0 <= i < sorted@.len() implies public_var(self.docs(), (#[trigger] sorted@[i]).environment, sorted@[i].key@) by {
                let x = override_views(sorted@)[i];
                assert(override_views(sorted@).to_multiset().count(x) > 0);
                assert(unsorted.to_multiset().count(x) > 0);
                assert(unsorted.contains(x));
            }
        }
        Ok(sorted)
    }
}

proof fn lemma_saved_public(docs: Seq<EnvironmentDocument>, local: Seq<(ResourceId, String, String)>)
    ensures
        forall|o: OverrideView|
            #[trigger] saved_values(docs, local).contains(o) ==> public_var(docs, o.environment, o.key),
    decreases local.len(),
{
    if local.len() > 0 {
        lemma_saved_public(docs, local.drop_last());
        let rest = saved_values(docs, local.drop_last());
        assert forall|o: OverrideView| #[trigger] saved_values(docs, local).contains(o) implies public_var(docs, o.environment, o.key) by {
            let e = local.last();
            match var_for(docs, e.0, e.1@) {
                Some(v) => if !hidden(v) {
                    let n = OverrideView { environment: e.0, key: e.1@, value: e.2@, value_type: v.value_type };
                    if o != n {
                        let k = choose|k: int| 0 <= k < rest.push(n).len() && rest.push(n)[k] == o;
                        assert(rest[k] == o);
                        assert(rest.contains(o));
                    }
                },
                None => {},
            }
        }
    }
}

impl EnvironmentManager {
    /// Gives `key` of environment `id` the session value `v`, replacing any.
    fn put_local(&mut self, id: ResourceId, key: &str, v: String)
        requires
            old(self).wf(),
        ensures
            final(self).wf(),
            final(self).session(id, key@) == Some(v),
            forall|i: ResourceId, k: Seq<char>|
                !(i == id && k == key@) ==> #[trigger] final(self).session(i, k) == old(self).session(i, k),
            final(self).docs() == old(self).docs(),
            final(self).path_list() == old(self).path_list(),
            final(self).root_spec() == old(self).root_spec(),
    {
        match self.local_index(id, key) {
            Some(li) => {
                let ghost before = self.local@;
                let entry = (id, key.to_owned(), v);
                let ghost ge = entry;
                self.local.set(li, entry);
                proof {
                    lemma_find_local_update(before, li as int, ge, id, key@);
                    assert forall|a: int, b: int| 0 <= a < b < self.local@.len() implies !((#[trigger] self.local@[a]).0 == (
                        #[trigger] self.local@[b]).0 && self.local@[a].1@ == self.local@[b].1@) by {
                        if a != li && b != li {
                            assert(self.local@[a] == before[a] && self.local@[b] == before[b]);
                        } else if a == li {
                            assert(self.local@[b] == before[b]);
                        } else {
                            assert(self.local@[a] == before[a]);
                        }
                    }
                }
            },
            None => {
                let ghost before = self.local@;
                let entry = (id, key.to_owned(), v);
                let ghost ge = entry;
                self.local.push(entry);
                proof {
                    lemma_find_local_push(before, ge, id, key@);
                    assert forall|a: int, b: int| 0 <= a < b < self.local@.len() implies !((#[trigger] self.local@[a]).0 == (
                        #[trigger] self.local@[b]).0 && self.local@[a].1@ == self.local@[b].1@) by {
                        assert(self.local@[a] == before[a]);
                        if b < before.len() {
                            assert(self.local@[b] == before[b]);
                        }
                    }
                }
            },
        }
    }
}

// ---------------------------------------------------------------------------
// Restoring a snapshot
// ---------------------------------------------------------------------------

pub open spec fn local_views(l: Seq<(ResourceId, String, String)>) -> Seq<(ResourceId, Seq<char>, Seq<char>)> {
    l.map_values(|e: (ResourceId, String, String)| (e.0, e.1@, e.2@))
}

pub open spec fn duplicate_override_message() -> Seq<char> {
    "Duplicate local environment override"@
}

pub open spec fn version_message() -> Seq<char> {
    "Unsupported local environment state version"@
}

/// The session values a snapshot restores, or the message of its first
/// fault. An override is skipped when its variable is gone, is secret or a
/// vault reference, or changed type; one whose value no longer fits its
/// type, or that repeats a key, makes the whole snapshot fail.
pub open spec fn restore_values(docs: Seq<EnvironmentDocument>, ovs: Seq<LocalOverride>) -> Result<Seq<(ResourceId, Seq<char>, Seq<char>)>, Seq<char>>
    decreases ovs.len(),
{
    if ovs.len() == 0 {
        Ok(Seq::empty())
    } else {
        match restore_values(docs, ovs.drop_last()) {
            Err(m) => Err(m),
            Ok(acc) => {
                let o = ovs.last();
                match var_for(docs, o.environment, o.key@) {
                    None => Ok(acc),
                    Some(v) => if hidden(v) || v.value_type != o.value_type {
                        Ok(acc)
                    } else if !value_ok(v.value_type, o.value@) {
                        Err(type_message())
                    } else if exists|k: int| 0 <= k < acc.len() && (#[trigger] acc[k]).0 == o.environment && acc[k].1 == o.key@ {
                        Err(duplicate_override_message())
                    } else {
                        Ok(acc.push((o.environment, o.key@, o.value@)))
                    },
                }
            },
        }
    }
}

proof fn lemma_find_local_unique(l: Seq<(ResourceId, String, String)>, j: int, id: ResourceId, key: Seq<char>)
    requires
        0 <= j < l.len(),
        l[j].0 == id && l[j].1@ == key,
        forall|a: int, b: int|
            0 <= a < b < l.len() ==> !((#[trigger] l[a]).0 == (#[trigger] l[b]).0 && l[a].1@ == l[b].1@),
    ensures
        find_local(l, id, key) == Some(l[j].2),
    decreases j,
{
    if j > 0 {
        assert(!(l[0].0 == id && l[0].1@ == key));
        assert forall|a: int, b: int| 0 <= a < b < l.drop_first().len() implies !((#[trigger] l.drop_first()[a]).0 == (
            #[trigger] l.drop_first()[b]).0 && l.drop_first()[a].1@ == l.drop_first()[b].1@) by {
            assert(l.drop_first()[a] == l[a + 1] && l.drop_first()[b] == l[b + 1]);
        }
        assert(l.drop_first()[j - 1] == l[j]);
        lemma_find_local_unique(l.drop_first(), j - 1, id, key);
    }
}

impl EnvironmentManager {
    /// Restores session values from a snapshot, all or nothing, and returns
    /// the saved selection if that environment still exists.
    pub fn apply_snapshot(&mut self, version: u32, active: Option<ResourceId>, overrides: &Vec<LocalOverride>) -> (r: Result<Option<ResourceId>, EnvironmentError>)
        requires
            old(self).wf(),
        ensures
            final(self).wf(),
            final(self).docs() == old(self).docs(),
            final(self).path_list() == old(self).path_list(),
            final(self).root_spec() == old(self).root_spec(),
            version != 1 ==> (r matches Err(EnvironmentError::Invalid(m)) && m@ == version_message())
                && final(self).sessions() == old(self).sessions(),
            version == 1 ==> match restore_values(old(self).docs(), overrides@) {
                Err(m) => (r matches Err(EnvironmentError::Invalid(m2)) && m2@ == m) && final(self).sessions()
                    == old(self).sessions(),
                Ok(acc) => local_views(final(self).sessions()) == acc && (r matches Ok(x) && x == match active {
                    Some(a) => if find_doc(old(self).docs(), a) is Some {
                        Some(a)
                    } else {
                        None
                    },
                    None => None,
                }),
            },
    {
        if version != 1 {
            return Err(EnvironmentError::Invalid("Unsupported local environment state version".to_owned()));
        }
        let mut fresh: Vec<(ResourceId, String, String)> = Vec::new();
        let mut i: usize = 0;
        assert(overrides@.take(0) =~= Seq::<LocalOverride>::empty());
        assert(local_views(fresh@) =~= Seq::<(ResourceId, Seq<char>, Seq<char>)>::empty());
        while i < overrides.len()
            invariant
                i <= overrides@.len(),
                *self == *old(self),
                old(self).wf(),
                version == 1,
                restore_values(self.docs(), overrides@.take(i as int)) == Ok::<Seq<(ResourceId, Seq<char>, Seq<char>)>, Seq<char>>(local_views(fresh@)),
                forall|a: int, b: int|
                    0 <= a < b < fresh@.len() ==> !((#[trigger] fresh@[a]).0 == (#[trigger] fresh@[b]).0 && fresh@[a].1@ == fresh@[b].1@),
            decreases overrides.len() - i,
        {
            assert(overrides@.take(i + 1).drop_last() =~= overrides@.take(i as int));
            let o = &overrides[i];
            let di = match self.doc_index(o.environment) {
                Some(d) => d,
                None => {
                    i = i + 1;
                    continue;
                },
            };
            let vi = match var_index_for(&self.documents, di, o.key.as_str()) {
                Some(v) => v,
                None => {
                    i = i + 1;
                    continue;
                },
            };
            let v = &self.documents[di].variables[vi];
            if v.is_secret || v.value_type == VariableType::SecretReference || v.value_type != o.value_type {
                i = i + 1;
                continue;
            }
            if validate_value(v.value_type, o.value.as_str()).is_err() {
                proof {
                    lemma_restore_prefix_err(self.docs(), overrides@, i + 1);
                }
                return Err(EnvironmentError::Invalid("Value does not match declared type".to_owned()));
            }
            let mut dup = false;
            let mut j: usize = 0;
            while j < fresh.len()
                invariant
                    j <= fresh@.len(),
                    dup == exists|k: int| 0 <= k < j && (#[trigger] fresh@[k]).0 == o.environment && fresh@[k].1@ == o.key@,
                decreases fresh.len() - j,
            {
                if fresh[j].0 == o.environment && str_eq(fresh[j].1.as_str(), o.key.as_str()) {
                    dup = true;
                }
                j = j + 1;
            }
            proof {
                let acc = local_views(fresh@);
                assert(dup == exists|k: int| 0 <= k < acc.len() && (#[trigger] acc[k]).0 == o.environment && acc[k].1 == o.key@) by {
                    if dup {
                        let k = choose|k: int| 0 <= k < fresh@.len() && (#[trigger] fresh@[k]).0 == o.environment && fresh@[k].1@ == o.key@;
                        assert(acc[k].0 == o.environment && acc[k].1 == o.key@);
                    }
                    if exists|k: int| 0 <= k < acc.len() && (#[trigger] acc[k]).0 == o.environment && acc[k].1 == o.key@ {
                        let k = choose|k: int| 0 <= k < acc.len() && (#[trigger] acc[k]).0 == o.environment && acc[k].1 == o.key@;
                        assert(fresh@[k].0 == o.environment && fresh@[k].1@ == o.key@);
                    }
                }
            }
            if dup {
                proof {
                    lemma_restore_prefix_err(self.docs(), overrides@, i + 1);
                }
                return Err(EnvironmentError::Invalid("Duplicate local environment override".to_owned()));
            }
            let ghost prev = fresh@;
            fresh.push((o.environment, o.key.clone(), o.value.clone()));
            assert(local_views(fresh@) =~= local_views(prev).push((o.environment, o.key@, o.value@)));
            i = i + 1;
        }
        assert(overrides@.take(i as int) =~= overrides@);
        self.local = fresh;
        match active {
            Some(a) => if self.doc_index(a).is_some() {
                Ok(Some(a))
            } else {
                Ok(None)
            },
            None => Ok(None),
        }
    }
}

proof fn lemma_restore_prefix_err(docs: Seq<EnvironmentDocument>, ovs: Seq<LocalOverride>, n: int)
    requires
        0 <= n <= ovs.len(),
        restore_values(docs, ovs.take(n)) is Err,
    ensures
        restore_values(docs, ovs) == restore_values(docs, ovs.take(n)),
    decreases ovs.len() - n,
{
    if n < ovs.len() {
        assert(ovs.take(n + 1).drop_last() =~= ovs.take(n));
        lemma_restore_prefix_err(docs, ovs, n + 1);
    } else {
        assert(ovs.take(n) =~= ovs);
    }
}

// ---------------------------------------------------------------------------
// Adding, saving and removing environments
// ---------------------------------------------------------------------------

pub open spec fn duplicate_id_message() -> Seq<char> {
    "Duplicate environment ID"@
}

/// Whether a session value survives saving `new` over `old`: values of
/// other environments do, and so do those of keys that keep their secrecy
/// and type.
pub open spec fn survives_save(old_doc: EnvironmentDocument, new_doc: EnvironmentDocument, e: (ResourceId, String, String)) -> bool {
    e.0 != new_doc.id || exists|i: int|
        0 <= i < new_doc.variables@.len() && (#[trigger] new_doc.variables@[i]).key@ == e.1@ && exists|j: int|
            0 <= j < old_doc.variables@.len() && (#[trigger] old_doc.variables@[j]).key@ == new_doc.variables@[i].key@
                && old_doc.variables@[j].is_secret == new_doc.variables@[i].is_secret
                && old_doc.variables@[j].value_type == new_doc.variables@[i].value_type
}

pub open spec fn kept_after_save(old_doc: EnvironmentDocument, new_doc: EnvironmentDocument, l: Seq<(ResourceId, String, String)>) -> Seq<(ResourceId, String, String)>
    decreases l.len(),
{
    if l.len() == 0 {
        Seq::empty()
    } else {
        let rest = kept_after_save(old_doc, new_doc, l.drop_last());
        if survives_save(old_doc, new_doc, l.last()) {
            rest.push(l.last())
        } else {
            rest
        }
    }
}

/// The session values of environments other than `id`.
pub open spec fn sessions_without(l: Seq<(ResourceId, String, String)>, id: ResourceId) -> Seq<(ResourceId, String, String)>
    decreases l.len(),
{
    if l.len() == 0 {
        Seq::empty()
    } else {
        let rest = sessions_without(l.drop_last(), id);
        if l.last().0 == id {
            rest
        } else {
            rest.push(l.last())
        }
    }
}

pub open spec fn docs_without(ds: Seq<EnvironmentDocument>, id: ResourceId) -> Seq<EnvironmentDocument>
    decreases ds.len(),
{
    if ds.len() == 0 {
        Seq::empty()
    } else {
        let rest = docs_without(ds.drop_last(), id);
        if ds.last().id == id {
            rest
        } else {
            rest.push(ds.last())
        }
    }
}

pub open spec fn paths_without(ps: Seq<(ResourceId, PathBuf)>, id: ResourceId) -> Seq<(ResourceId, PathBuf)>
    decreases ps.len(),
{
    if ps.len() == 0 {
        Seq::empty()
    } else {
        let rest = paths_without(ps.drop_last(), id);
        if ps.last().0 == id {
            rest
        } else {
            rest.push(ps.last())
        }
    }
}

/// Filtering keeps a list free of repeated keys.
proof fn lemma_filtered_unique(l: Seq<(ResourceId, String, String)>, f: Seq<(ResourceId, String, String)>)
    requires
        forall|a: int, b: int|
            0 <= a < b < l.len() ==> !((#[trigger] l[a]).0 == (#[trigger] l[b]).0 && l[a].1@ == l[b].1@),
        exists|idx: Seq<int>|
            idx.len() == f.len() && (forall|k: int| 0 <= k < idx.len() ==> 0 <= #[trigger] idx[k] < l.len() && f[k] == l[idx[k]])
                && (forall|a: int, b: int| 0 <= a < b < idx.len() ==> #[trigger] idx[a] < #[trigger] idx[b]),
    ensures
        forall|a: int, b: int|
            0 <= a < b < f.len() ==> !((#[trigger] f[a]).0 == (#[trigger] f[b]).0 && f[a].1@ == f[b].1@),
{
    let idx = choose|idx: Seq<int>|
        idx.len() == f.len() && (forall|k: int| 0 <= k < idx.len() ==> 0 <= #[trigger] idx[k] < l.len() && f[k] == l[idx[k]])
            && (forall|a: int, b: int| 0 <= a < b < idx.len() ==> #[trigger] idx[a] < #[trigger] idx[b]);
    assert forall|a: int, b: int| 0 <= a < b < f.len() implies !((#[trigger] f[a]).0 == (#[trigger] f[b]).0 && f[a].1@ == f[b].1@) by {
        assert(idx[a] < idx[b]);
        assert(f[a] == l[idx[a]] && f[b] == l[idx[b]]);
    }
}

impl EnvironmentManager {
    /// A new environment ready to be written: valid, with an identifier not
    /// in use, and secret defaults reduced to vault references.
    pub fn prepare_new(&self, doc: EnvironmentDocument) -> (r: Result<EnvironmentDocument, EnvironmentError>)
        ensures
            match r {
                Ok(d) => {
                    &&& doc_problem(doc) is None
                    &&& find_doc(self.docs(), doc.id) is None
                    &&& d.id == doc.id
                    &&& d.name == doc.name
                    &&& d.created_at == doc.created_at
                    &&& d.updated_at == doc.updated_at
                    &&& protected_vars(doc.variables@, d.variables@)
                },
                Err(e) => e matches EnvironmentError::Invalid(m) && (doc_problem(doc) == Some(m@) || (doc_problem(doc) is None
                    && find_doc(self.docs(), doc.id) is Some && m@ == duplicate_id_message())),
            },
    {
        validate(&doc)?;
        if self.doc_index(doc.id).is_some() {
            return Err(EnvironmentError::Invalid("Duplicate environment ID".to_owned()));
        }
        let mut d = doc;
        protect_defaults(&mut d);
        Ok(d)
    }

    /// Records a new environment written at `path`.
    pub fn add_document(&mut self, doc: EnvironmentDocument, path: PathBuf)
        requires
            find_doc(old(self).docs(), doc.id) is None,
        ensures
            final(self).docs() == old(self).docs().push(doc),
            final(self).path_list() == old(self).path_list().push((doc.id, path)),
            final(self).sessions() == old(self).sessions(),
            final(self).root_spec() == old(self).root_spec(),
    {
        let id = doc.id;
        self.documents.push(doc);
        self.paths.push((id, path));
    }

    /// A changed environment ready to be written: it must exist and be
    /// valid; secret defaults are reduced and the update time set.
    pub fn prepare_save(&self, doc: EnvironmentDocument, now: i64) -> (r: Result<EnvironmentDocument, EnvironmentError>)
        ensures
            match r {
                Ok(d) => {
                    &&& find_doc(self.docs(), doc.id) is Some
                    &&& doc_problem(doc) is None
                    &&& d.id == doc.id
                    &&& d.name == doc.name
                    &&& d.created_at == doc.created_at
                    &&& d.updated_at == now
                    &&& protected_vars(doc.variables@, d.variables@)
                },
                Err(e) => (e matches EnvironmentError::Missing(x) && x == doc.id && find_doc(self.docs(), doc.id) is None)
                    || (e matches EnvironmentError::Invalid(m) && find_doc(self.docs(), doc.id) is Some && doc_problem(doc) == Some(m@)),
            },
    {
        self.get(doc.id)?;
        validate(&doc)?;
        let mut d = doc;
        protect_defaults(&mut d);
        d.updated_at = now;
        Ok(d)
    }

    /// Records a saved environment: it replaces the stored one, and session
    /// values of keys whose secrecy or type changed, or that are gone, are
    /// dropped.
    pub fn commit_save(&mut self, doc: EnvironmentDocument)
        requires
            old(self).wf(),
            find_doc(old(self).docs(), doc.id) is Some,
        ensures
            final(self).wf(),
            final(self).sessions() == kept_after_save(find_doc(old(self).docs(), doc.id)->0, doc, old(self).sessions()),
            find_doc(final(self).docs(), doc.id) == Some(doc),
            forall|x: ResourceId| x != doc.id ==> #[trigger] find_doc(final(self).docs(), x) == find_doc(old(self).docs(), x),
            final(self).docs().len() == old(self).docs().len(),
            final(self).path_list() == old(self).path_list(),
            final(self).root_spec() == old(self).root_spec(),
    {
        let di = match self.doc_index(doc.id) {
            Some(d) => d,
            None => {
                proof {
                    assert(false);
                }
                return;
            },
        };
        let ghost old_doc = self.documents@[di as int];
        let mut kept: Vec<(ResourceId, String, String)> = Vec::new();
        let mut i: usize = 0;
        let ghost mut idx: Seq<int> = Seq::empty();
        assert(self.local@.take(0) =~= Seq::<(ResourceId, String, String)>::empty());
        while i < self.local.len()
            invariant
                i <= self.local@.len(),
                di < self.documents@.len(),
                old_doc == self.documents@[di as int],
                *self == *old(self),
                old(self).wf(),
                kept@ == kept_after_save(old_doc, doc, self.local@.take(i as int)),
                idx.len() == kept@.len(),
                forall|k: int| 0 <= k < idx.len() ==> 0 <= #[trigger] idx[k] < i && kept@[k] == self.local@[idx[k]],
                forall|a: int, b: int| 0 <= a < b < idx.len() ==> #[trigger] idx[a] < #[trigger] idx[b],
            decreases self.local.len() - i,
        {
            assert(self.local@.take(i + 1).drop_last() =~= self.local@.take(i as int));
            let e = &self.local[i];
            let mut keep = e.0 != doc.id;
            if !keep {
                let mut a: usize = 0;
                while a < doc.variables.len() && !keep
                    invariant
                        a <= doc.variables@.len(),
                        di < self.documents@.len(),
                        old_doc == self.documents@[di as int],
                        keep == survives_save(old_doc, doc, *e) || (keep == false && forall|x: int| 0 <= x < a ==> !(
                            (#[trigger] doc.variables@[x]).key@ == e.1@ && exists|j: int|
                                0 <= j < old_doc.variables@.len() && (#[trigger] old_doc.variables@[j]).key@ == doc.variables@[x].key@
                                    && old_doc.variables@[j].is_secret == doc.variables@[x].is_secret
                                    && old_doc.variables@[j].value_type == doc.variables@[x].value_type)),
                    decreases doc.variables.len() - a,
                {
                    let v = &doc.variables[a];
                    if str_eq(v.key.as_str(), e.1.as_str()) {
                        let ov = &self.documents[di].variables;
                        let mut b: usize = 0;
                        let mut found = false;
                        while b < ov.len()
                            invariant
                                b <= ov@.len(),
                                ov@ == old_doc.variables@,
                                found == exists|j: int|
                                    0 <= j < b && (#[trigger] ov@[j]).key@ == v.key@ && ov@[j].is_secret == v.is_secret
                                        && ov@[j].value_type == v.value_type,
                            decreases ov.len() - b,
                        {
                            if str_eq(ov[b].key.as_str(), v.key.as_str()) && ov[b].is_secret == v.is_secret
                                && ov[b].value_type == v.value_type {
                                found = true;
                            }
                            b = b + 1;
                        }
                        if found {
                            keep = true;
                            assert(survives_save(old_doc, doc, *e)) by {
                                assert(doc.variables@[a as int] == *v);
                            }
                        }
                    }
                    a = a + 1;
                }
                proof {
                    if !keep {
                        assert(!survives_save(old_doc, doc, *e));
                    }
                }
            }
            if keep {
                let ghost ii = i as int;
                kept.push((e.0, e.1.clone(), e.2.clone()));
                proof {
                    idx = idx.push(ii);
                }
            }
            i = i + 1;
        }
        assert(self.local@.take(i as int) =~= self.local@);
        proof {
            assert(self.wf());
            assert(self.sessions() == self.local@);
            lemma_filtered_unique(self.local@, kept@);
        }
        self.local = kept;
        let ghost before = self.documents@;
        self.documents.set(di, doc);
        proof {
            lemma_find_doc_update(before, di as int, doc);
        }
    }
}

proof fn lemma_find_doc_update(ds: Seq<EnvironmentDocument>, at: int, d: EnvironmentDocument)
    requires
        0 <= at < ds.len(),
        ds[at].id == d.id,
        find_doc(ds, d.id) == Some(ds[at]),
        forall|k: int| 0 <= k < at ==> (#[trigger] ds[k]).id != d.id,
    ensures
        find_doc(ds.update(at, d), d.id) == Some(d),
        forall|x: ResourceId| x != d.id ==> #[trigger] find_doc(ds.update(at, d), x) == find_doc(ds, x),
    decreases at,
{
    assert forall|x: ResourceId| x != d.id implies #[trigger] find_doc(ds.update(at, d), x) == find_doc(ds, x) by {
        lemma_find_doc_update_other(ds, at, d, x);
    }
    if at == 0 {
        assert(ds.update(at, d)[0] == d);
    } else {
        assert(ds.update(at, d)[0] == ds[0]);
        assert(ds.update(at, d).drop_first() =~= ds.drop_first().update(at - 1, d));
        assert forall|k: int| 0 <= k < at - 1 implies (#[trigger] ds.drop_first()[k]).id != d.id by {
            assert(ds.drop_first()[k] == ds[k + 1]);
        }
        assert(ds.drop_first()[at - 1] == ds[at]);
        lemma_find_doc_update(ds.drop_first(), at - 1, d);
    }
}

proof fn lemma_find_doc_update_other(ds: Seq<EnvironmentDocument>, at: int, d: EnvironmentDocument, x: ResourceId)
    requires
        0 <= at < ds.len(),
        ds[at].id == d.id,
        x != d.id,
    ensures
        find_doc(ds.update(at, d), x) == find_doc(ds, x),
    decreases ds.len(),
{
    if at == 0 {
        assert(ds.update(at, d)[0] == d);
        assert(ds.update(at, d).drop_first() =~= ds.drop_first());
    } else {
        assert(ds.update(at, d)[0] == ds[0]);
        assert(ds.update(at, d).drop_first() =~= ds.drop_first().update(at - 1, d));
        assert(ds.drop_first()[at - 1] == ds[at]);
        lemma_find_doc_update_other(ds.drop_first(), at - 1, d, x);
    }
}

impl EnvironmentManager {
    /// Forgets an environment that was deleted: its document, file and
    /// session values.
    pub fn forget(&mut self, id: ResourceId) -> (r: Result<(), EnvironmentError>)
        requires
            old(self).wf(),
        ensures
            final(self).wf(),
            final(self).root_spec() == old(self).root_spec(),
            match r {
                Ok(()) => {
                    &&& find_doc(old(self).docs(), id) is Some
                    &&& final(self).docs() == docs_without(old(self).docs(), id)
                    &&& final(self).path_list() == paths_without(old(self).path_list(), id)
                    &&& final(self).sessions() == sessions_without(old(self).sessions(), id)
                },
                Err(e) => (e matches EnvironmentError::Missing(x) && x == id) && find_doc(old(self).docs(), id) is None
                    && *final(self) == *old(self),
            },
    {
        if self.doc_index(id).is_none() {
            return Err(EnvironmentError::Missing(id));
        }
        let mut taken: Vec<EnvironmentDocument> = Vec::new();
        std::mem::swap(&mut taken, &mut self.documents);
        let ghost all = taken@;
        let total = taken.len();
        assert(all.len() == total);
        let mut n: usize = 0;
        assert(all.take(0) =~= Seq::<EnvironmentDocument>::empty());
        assert(all.skip(0) =~= all);
        while taken.len() > 0
            invariant
                n + taken@.len() == all.len(),
                all.len() <= usize::MAX,
                all == old(self).documents@,
                taken@ == all.skip(n as int),
                self.documents@ == docs_without(all.take(n as int), id),
                self.root == old(self).root,
                self.local == old(self).local,
                self.paths == old(self).paths,
            decreases taken.len(),
        {
            let d = taken.remove(0);
            proof {
                assert(all.skip(n as int)[0] == d);
                assert(taken@ =~= all.skip(n + 1));
                assert(all.take(n + 1).drop_last() =~= all.take(n as int));
                assert(all.take(n + 1).last() == d);
            }
            if d.id != id {
                self.documents.push(d);
            }
            n = n + 1;
        }
        assert(all.take(n as int) =~= all);
        let mut ptaken: Vec<(ResourceId, PathBuf)> = Vec::new();
        std::mem::swap(&mut ptaken, &mut self.paths);
        let ghost pall = ptaken@;
        let ptotal = ptaken.len();
        assert(pall.len() == ptotal);
        let mut m: usize = 0;
        assert(pall.take(0) =~= Seq::<(ResourceId, PathBuf)>::empty());
        assert(pall.skip(0) =~= pall);
        while ptaken.len() > 0
            invariant
                m + ptaken@.len() == pall.len(),
                pall.len() <= usize::MAX,
                pall == old(self).paths@,
                ptaken@ == pall.skip(m as int),
                self.paths@ == paths_without(pall.take(m as int), id),
                self.documents@ == docs_without(old(self).documents@, id),
                self.root == old(self).root,
                self.local == old(self).local,
            decreases ptaken.len(),
        {
            let p = ptaken.remove(0);
            proof {
                assert(pall.skip(m as int)[0] == p);
                assert(ptaken@ =~= pall.skip(m + 1));
                assert(pall.take(m + 1).drop_last() =~= pall.take(m as int));
                assert(pall.take(m + 1).last() == p);
            }
            if p.0 != id {
                self.paths.push(p);
            }
            m = m + 1;
        }
        assert(pall.take(m as int) =~= pall);
        let mut kept: Vec<(ResourceId, String, String)> = Vec::new();
        let mut i: usize = 0;
        let ghost mut idx: Seq<int> = Seq::empty();
        assert(self.local@.take(0) =~= Seq::<(ResourceId, String, String)>::empty());
        while i < self.local.len()
            invariant
                i <= self.local@.len(),
                self.local == old(self).local,
                self.root == old(self).root,
                self.documents@ == docs_without(old(self).documents@, id),
                self.paths@ == paths_without(old(self).paths@, id),
                old(self).wf(),
                kept@ == sessions_without(self.local@.take(i as int), id),
                idx.len() == kept@.len(),
                forall|k: int| 0 <= k < idx.len() ==> 0 <= #[trigger] idx[k] < i && kept@[k] == self.local@[idx[k]],
                forall|a: int, b: int| 0 <= a < b < idx.len() ==> #[trigger] idx[a] < #[trigger] idx[b],
            decreases self.local.len() - i,
        {
            assert(self.local@.take(i + 1).drop_last() =~= self.local@.take(i as int));
            let e = &self.local[i];
            if e.0 != id {
                let ghost ii = i as int;
                kept.push((e.0, e.1.clone(), e.2.clone()));
                proof {
                    idx = idx.push(ii);
                }
            }
            i = i + 1;
        }
        assert(self.local@.take(i as int) =~= self.local@);
        proof {
            assert(old(self).sessions() == self.local@);
            lemma_filtered_unique(self.local@, kept@);
        }
        self.local = kept;
        Ok(())
    }

    /// Keeps, in a freshly scanned manager, the session values of this one
    /// whose variables kept their secrecy and type.
    pub fn carry_sessions(&self, next: &mut EnvironmentManager)
        requires
            self.wf(),
            old(next).wf(),
        ensures
            final(next).wf(),
            final(next).docs() == old(next).docs(),
            final(next).path_list() == old(next).path_list(),
            final(next).root_spec() == old(next).root_spec(),
            forall|i: ResourceId, k: Seq<char>|
                #[trigger] final(next).session(i, k) == if self.session(i, k) is Some && carried(self.docs(), old(next).docs(), i, k) {
                    self.session(i, k)
                } else {
                    old(next).session(i, k)
                },
    {
        let mut n: usize = 0;
        while n < self.local.len()
            invariant
                n <= self.local@.len(),
                self.wf(),
                next.wf(),
                next.docs() == old(next).docs(),
                next.path_list() == old(next).path_list(),
                next.root_spec() == old(next).root_spec(),
                forall|i: ResourceId, k: Seq<char>|
                    #[trigger] next.session(i, k) == if (exists|j: int| 0 <= j < n && (#[trigger] self.local@[j]).0 == i && self.local@[j].1@ == k)
                        && carried(self.docs(), old(next).docs(), i, k) {
                        self.session(i, k)
                    } else {
                        old(next).session(i, k)
                    },
            decreases self.local.len() - n,
        {
            let e = &self.local[n];
            let ghost gi = e.0;
            let ghost gk = e.1@;
            proof {
                assert(self.sessions() == self.local@);
                lemma_find_local_unique(self.local@, n as int, gi, gk);
            }
            let old_var = match self.doc_index(e.0) {
                Some(di) => match var_index_for(&self.documents, di, e.1.as_str()) {
                    Some(vi) => Some((self.documents[di].variables[vi].is_secret, self.documents[di].variables[vi].value_type)),
                    None => None,
                },
                None => None,
            };
            let new_var = match next.doc_index(e.0) {
                Some(di) => match var_index_for(&next.documents, di, e.1.as_str()) {
                    Some(vi) => Some((next.documents[di].variables[vi].is_secret, next.documents[di].variables[vi].value_type)),
                    None => None,
                },
                None => None,
            };
            let ghost before = *next;
            let compatible = match (old_var, new_var) {
                (Some((s1, t1)), Some((s2, t2))) => s1 == s2 && t1 == t2,
                _ => false,
            };
            assert(compatible == carried(self.docs(), old(next).docs(), gi, gk));
            if compatible {
                next.put_local(e.0, e.1.as_str(), e.2.clone());
            }
            proof {
                assert forall|i: ResourceId, k: Seq<char>|
                    #[trigger] next.session(i, k) == if (exists|j: int| 0 <= j < n + 1 && (#[trigger] self.local@[j]).0 == i && self.local@[j].1@ == k)
                        && carried(self.docs(), old(next).docs(), i, k) {
                        self.session(i, k)
                    } else {
                        old(next).session(i, k)
                    } by {
                    if i == gi && k == gk {
                        assert(self.local@[n as int].0 == i && self.local@[n as int].1@ == k);
                        if !compatible {
                            assert(before.session(i, k) == next.session(i, k));
                        }
                    } else {
                        if exists|j: int| 0 <= j < n + 1 && (#[trigger] self.local@[j]).0 == i && self.local@[j].1@ == k {
                            let j = choose|j: int| 0 <= j < n + 1 && (#[trigger] self.local@[j]).0 == i && self.local@[j].1@ == k;
                            assert(j < n);
                        }
                    }
                }
            }
            n = n + 1;
        }
        proof {
            assert forall|i: ResourceId, k: Seq<char>|
                #[trigger] next.session(i, k) == if self.session(i, k) is Some && carried(self.docs(), old(next).docs(), i, k) {
                    self.session(i, k)
                } else {
                    old(next).session(i, k)
                } by {
                lemma_find_local_some(self.local@, i, k);
            }
        }
    }

    /// A copy of an environment under a fresh identifier and a new name;
    /// session values are not copied.
    pub fn duplicate_document(&self, id: ResourceId, name: &str, now: i64) -> (r: Result<EnvironmentDocument, EnvironmentError>)
        ensures
            match r {
                Ok(d) => find_doc(self.docs(), id) matches Some(src) && d.variables@ == src.variables@ && d.name@ == name@
                    && d.created_at == now && d.updated_at == now,
                Err(e) => (e matches EnvironmentError::Missing(x) && x == id) && find_doc(self.docs(), id) is None,
            },
    {
        let src = self.get(id)?;
        let copy = src.copy();
        Ok(
            EnvironmentDocument {
                id: ResourceId::new(),
                name: name.to_owned(),
                variables: copy.variables,
                created_at: now,
                updated_at: now,
            },
        )
    }

    /// The portable form of an environment: secret defaults reduced to vault
    /// references; session values never included.
    pub fn export_document(&self, id: ResourceId) -> (r: Result<EnvironmentDocument, EnvironmentError>)
        ensures
            match r {
                Ok(d) => find_doc(self.docs(), id) matches Some(src) && d.id == src.id && d.name == src.name
                    && protected_vars(src.variables@, d.variables@) && d.created_at == src.created_at
                    && d.updated_at == src.updated_at,
                Err(e) => (e matches EnvironmentError::Missing(x) && x == id) && find_doc(self.docs(), id) is None,
            },
    {
        let src = self.get(id)?;
        let mut d = src.copy();
        protect_defaults(&mut d);
        Ok(d)
    }
}

/// A session value is carried over when its variable exists on both sides
/// with the same secrecy and type.
pub open spec fn carried(old_docs: Seq<EnvironmentDocument>, new_docs: Seq<EnvironmentDocument>, id: ResourceId, key: Seq<char>) -> bool {
    var_for(old_docs, id, key) matches Some(a) && var_for(new_docs, id, key) matches Some(b) && a.is_secret
        == b.is_secret && a.value_type == b.value_type
}

proof fn lemma_find_local_some(l: Seq<(ResourceId, String, String)>, id: ResourceId, key: Seq<char>)
    ensures
        find_local(l, id, key) is Some <==> exists|j: int| 0 <= j < l.len() && (#[trigger] l[j]).0 == id && l[j].1@ == key,
    decreases l.len(),
{
    if l.len() > 0 {
        lemma_find_local_some(l.drop_first(), id, key);
        if exists|j: int| 0 <= j < l.drop_first().len() && (#[trigger] l.drop_first()[j]).0 == id && l.drop_first()[j].1@ == key {
            let j = choose|j: int| 0 <= j < l.drop_first().len() && (#[trigger] l.drop_first()[j]).0 == id && l.drop_first()[j].1@ == key;
            assert(l[j + 1] == l.drop_first()[j]);
        }
        if exists|j: int| 0 <= j < l.len() && (#[trigger] l[j]).0 == id && l[j].1@ == key {
            let j = choose|j: int| 0 <= j < l.len() && (#[trigger] l[j]).0 == id && l[j].1@ == key;
            if j > 0 {
                assert(l.drop_first()[j - 1] == l[j]);
            }
        }
    }
}

// ---------------------------------------------------------------------------
// Laws
// ---------------------------------------------------------------------------

/// A session value takes effect: when an enabled variable has a session
/// value, that value is the effective value of its key.
pub proof fn law_session_value_takes_effect(
    vars: Seq<VariableEntry>,
    local: Seq<(ResourceId, String, String)>,
    id: ResourceId,
    key: Seq<char>,
    value: String,
)
    requires
        find_local(local, id, key) == Some(value),
        exists|i: int| 0 <= i < vars.len() && (#[trigger] vars[i]).key@ == key && vars[i].enabled,
    ensures
        exists|i: int| 0 <= i < effective(vars, local, id).len() && (#[trigger] effective(vars, local, id)[i]).key@ == key,
        forall|i: int|
            0 <= i < effective(vars, local, id).len() && (#[trigger] effective(vars, local, id)[i]).key@ == key
                ==> effective(vars, local, id)[i].value == value,
    decreases vars.len(),
{
    let last = vars.last();
    let init = vars.drop_last();
    let rest = effective(init, local, id);
    lemma_effective_values(init, local, id, key, value);
    if last.key@ == key && last.enabled {
        let e = effective(vars, local, id);
        assert(e[e.len() - 1].key@ == key);
    } else {
        let i = choose|i: int| 0 <= i < vars.len() && (#[trigger] vars[i]).key@ == key && vars[i].enabled;
        assert(i < vars.len() - 1);
        assert(init[i] == vars[i]);
        law_session_value_takes_effect(init, local, id, key, value);
        let j = choose|j: int| 0 <= j < rest.len() && (#[trigger] rest[j]).key@ == key;
        assert(effective(vars, local, id)[j] == rest[j]);
    }
    lemma_effective_values(vars, local, id, key, value);
}

proof fn lemma_effective_values(
    vars: Seq<VariableEntry>,
    local: Seq<(ResourceId, String, String)>,
    id: ResourceId,
    key: Seq<char>,
    value: String,
)
    requires
        find_local(local, id, key) == Some(value),
    ensures
        forall|i: int|
            0 <= i < effective(vars, local, id).len() && (#[trigger] effective(vars, local, id)[i]).key@ == key
                ==> effective(vars, local, id)[i].value == value,
    decreases vars.len(),
{
    if vars.len() > 0 {
        lemma_effective_values(vars.drop_last(), local, id, key, value);
        let rest = effective(vars.drop_last(), local, id);
        let e = effective(vars, local, id);
        assert forall|i: int| 0 <= i < e.len() && (#[trigger] e[i]).key@ == key implies e[i].value == value by {
            if i < rest.len() {
                assert(e[i] == rest[i]);
            }
        }
    }
}

/// Tables never show a secret: for a secret variable or a vault reference,
/// the default and the session value are both shown as the mask.
pub proof fn law_rows_mask_secrets(vars: Seq<VariableEntry>, local: Seq<(ResourceId, String, String)>, id: ResourceId)
    ensures
        rows_of(vars, local, id).len() == vars.len(),
        forall|i: int|
            0 <= i < vars.len() && hidden(#[trigger] vars[i]) ==> rows_of(vars, local, id)[i].default_value
                == ENV_SECRET_MASK@ && (rows_of(vars, local, id)[i].current_value matches Some(c) ==> c == ENV_SECRET_MASK@),
    decreases vars.len(),
{
    if vars.len() > 0 {
        law_rows_mask_secrets(vars.drop_last(), local, id);
        let rest = rows_of(vars.drop_last(), local, id);
        let rs = rows_of(vars, local, id);
        assert forall|i: int| 0 <= i < vars.len() && hidden(#[trigger] vars[i]) implies rs[i].default_value == ENV_SECRET_MASK@
            && (rs[i].current_value matches Some(c) ==> c == ENV_SECRET_MASK@) by {
            if i < vars.len() - 1 {
                assert(rs[i] == rest[i]);
                assert(vars.drop_last()[i] == vars[i]);
            }
        }
    }
}

/// A restored snapshot brings back values of public variables only.
pub proof fn law_restored_values_are_public(docs: Seq<EnvironmentDocument>, ovs: Seq<LocalOverride>)
    requires
        restore_values(docs, ovs) is Ok,
    ensures
        forall|k: int|
            0 <= k < restore_values(docs, ovs)->Ok_0.len() ==> public_var(
                docs,
                (#[trigger] restore_values(docs, ovs)->Ok_0[k]).0,
                restore_values(docs, ovs)->Ok_0[k].1,
            ),
    decreases ovs.len(),
{
    if ovs.len() > 0 {
        law_restored_values_are_public(docs, ovs.drop_last());
        let acc = restore_values(docs, ovs.drop_last())->Ok_0;
        let out = restore_values(docs, ovs)->Ok_0;
        assert forall|k: int| 0 <= k < out.len() implies public_var(docs, (#[trigger] out[k]).0, out[k].1) by {
            if k < acc.len() {
                assert(out[k] == acc[k]);
            }
        }
    }
}

/// A stored or exported environment holds no raw secret: every secret
/// default other than a vault reference is empty.
pub proof fn law_stored_defaults_hold_no_raw_secret(before: Seq<VariableEntry>, after: Seq<VariableEntry>)
    requires
        protected_vars(before, after),
    ensures
        forall|i: int|
            0 <= i < after.len() && (#[trigger] after[i]).is_secret && after[i].value_type != VariableType::SecretReference
                ==> after[i].value@.len() == 0,
{
    assert forall|i: int|
        0 <= i < after.len() && (#[trigger] after[i]).is_secret && after[i].value_type != VariableType::SecretReference
            implies after[i].value@.len() == 0 by {
        assert(after[i].value@ == protected_value(before[i]));
    }
}

// ---------------------------------------------------------------------------
// Editing workflows
// ---------------------------------------------------------------------------

/// The definition an effective variable gives the resolver: secret when the
/// variable is secret or a vault reference, sourced from the environment.
pub open spec fn definition_of(doc: EnvironmentDocument, v: VariableEntry) -> DefinitionView {
    DefinitionView {
        name: v.key@,
        value: v.value@,
        is_secret: hidden(v),
        enabled: true,
        source: SourceView { scope: crate::domain::VariableScope::Environment, resource_id: Some(doc.id), label: doc.name@ },
    }
}

/// Resolver definitions for the effective variables of an environment.
pub fn environment_definitions(doc: &EnvironmentDocument, effective: &Vec<VariableEntry>) -> (r: Vec<VariableDefinition>)
    ensures
        r@.len() == effective@.len(),
        forall|i: int| 0 <= i < r@.len() ==> (#[trigger] r@[i])@ == definition_of(*doc, effective@[i]),
{
    let mut out: Vec<VariableDefinition> = Vec::new();
    let mut i: usize = 0;
    while i < effective.len()
        invariant
            i <= effective@.len(),
            out@.len() == i,
            forall|k: int| 0 <= k < i ==> (#[trigger] out@[k])@ == definition_of(*doc, effective@[k]),
        decreases effective.len() - i,
    {
        let v = &effective[i];
        let source = VariableSource::new(crate::domain::VariableScope::Environment, doc.name.as_str()).with_resource_id(doc.id);
        let d = VariableDefinition::new(v.key.as_str(), v.value.as_str(), source);
        let d = if v.is_secret || v.value_type == VariableType::SecretReference {
            d.secret()
        } else {
            d
        };
        out.push(d);
        i = i + 1;
    }
    out
}

/// The environment after `active` in the picker's cycle: the first one
/// after none, none after the last or an unknown one.
pub fn next_in_cycle(ids: &Vec<ResourceId>, active: Option<ResourceId>) -> (r: Option<ResourceId>)
    ensures
        active is None ==> r == (if ids@.len() > 0 {
            Some(ids@[0])
        } else {
            None
        }),
        active matches Some(a) ==> {
            &&& (forall|k: int| 0 <= k < ids@.len() ==> ids@[k] != a) ==> r is None
            &&& forall|k: int|
                0 <= k < ids@.len() && #[trigger] ids@[k] == a && (forall|j: int| 0 <= j < k ==> ids@[j] != a) ==> r == (if k + 1
                    < ids@.len() {
                    Some(ids@[k + 1])
                } else {
                    None
                })
        },
{
    match active {
        None => if ids.len() > 0 {
            Some(ids[0])
        } else {
            None
        },
        Some(a) => {
            let mut k: usize = 0;
            while k < ids.len()
                invariant
                    k <= ids@.len(),
                    active == Some(a),
                    forall|j: int| 0 <= j < k ==> ids@[j] != a,
                decreases ids.len() - k,
            {
                if ids[k] == a {
                    proof {
                        assert forall|c: int|
                            0 <= c < ids@.len() && #[trigger] ids@[c] == a && (forall|j: int| 0 <= j < c ==> ids@[j] != a) implies c == k by {
                            if c > k {
                                assert(ids@[k as int] == a);
                            }
                        }
                    }
                    if k + 1 < ids.len() {
                        return Some(ids[k + 1]);
                    } else {
                        return None;
                    }
                }
                k = k + 1;
            }
            None
        },
    }
}

pub open spec fn stale_editor_message() -> Seq<char> {
    "Variable no longer exists; reload the editor"@
}

/// An environment with one variable replaced (the first with `old_key`) or,
/// without a key, added at the end.
pub fn edit_variable(doc: &EnvironmentDocument, old_key: Option<&str>, variable: VariableEntry) -> (r: Result<EnvironmentDocument, EnvironmentError>)
    ensures
        match r {
            Ok(d) => {
                &&& d.id == doc.id
                &&& d.name == doc.name
                &&& d.created_at == doc.created_at
                &&& d.updated_at == doc.updated_at
                &&& match old_key {
                    None => d.variables@ == doc.variables@.push(variable),
                    Some(k) => exists|i: int|
                        0 <= i < doc.variables@.len() && (#[trigger] doc.variables@[i]).key@ == k@ && (forall|j: int|
                            0 <= j < i ==> doc.variables@[j].key@ != k@) && d.variables@ == doc.variables@.update(i, variable),
                }
            },
            Err(e) => (e matches EnvironmentError::Invalid(m) && m@ == stale_editor_message()) && (old_key matches Some(k)
                && forall|i: int| 0 <= i < doc.variables@.len() ==> (#[trigger] doc.variables@[i]).key@ != k@),
        },
{
    let mut d = doc.copy();
    match old_key {
        None => {
            d.variables.push(variable);
            Ok(d)
        },
        Some(k) => {
            let mut i: usize = 0;
            while i < d.variables.len()
                invariant
                    i <= d.variables@.len(),
                    d.variables@ == doc.variables@,
                    old_key == Some(k),
                    d.id == doc.id,
                    d.name == doc.name,
                    d.created_at == doc.created_at,
                    d.updated_at == doc.updated_at,
                    forall|j: int| 0 <= j < i ==> doc.variables@[j].key@ != k@,
                decreases d.variables.len() - i,
            {
                if str_eq(d.variables[i].key.as_str(), k) {
                    d.variables.set(i, variable);
                    assert(doc.variables@[i as int].key@ == k@);
                    return Ok(d);
                }
                i = i + 1;
            }
            Err(EnvironmentError::Invalid("Variable no longer exists; reload the editor".to_owned()))
        },
    }
}

/// The variables of `vars` other than those with key `key`.
pub open spec fn vars_without(vars: Seq<VariableEntry>, key: Seq<char>) -> Seq<VariableEntry>
    decreases vars.len(),
{
    if vars.len() == 0 {
        Seq::empty()
    } else {
        let rest = vars_without(vars.drop_last(), key);
        if vars.last().key@ == key {
            rest
        } else {
            rest.push(vars.last())
        }
    }
}

/// An environment without the variables of a key.
pub fn remove_variable(doc: &EnvironmentDocument, key: &str) -> (r: EnvironmentDocument)
    ensures
        r.id == doc.id,
        r.name == doc.name,
        r.created_at == doc.created_at,
        r.updated_at == doc.updated_at,
        r.variables@ == vars_without(doc.variables@, key@),
{
    let mut vars: Vec<VariableEntry> = Vec::new();
    let mut i: usize = 0;
    assert(doc.variables@.take(0) =~= Seq::<VariableEntry>::empty());
    while i < doc.variables.len()
        invariant
            i <= doc.variables@.len(),
            vars@ == vars_without(doc.variables@.take(i as int), key@),
        decreases doc.variables.len() - i,
    {
        assert(doc.variables@.take(i + 1).drop_last() =~= doc.variables@.take(i as int));
        if !str_eq(doc.variables[i].key.as_str(), key) {
            vars.push(doc.variables[i].copy());
        }
        i = i + 1;
    }
    assert(doc.variables@.take(i as int) =~= doc.variables@);
    EnvironmentDocument {
        id: doc.id,
        name: doc.name.clone(),
        variables: vars,
        created_at: doc.created_at,
        updated_at: doc.updated_at,
    }
}

pub open spec fn gone_message() -> Seq<char> {
    "Variable no longer exists"@
}

pub open spec fn unsaved_classification_message() -> Seq<char> {
    "Save type and secret changes before applying a local value"@
}

/// Refuses a session value typed into a draft whose type or secrecy was
/// not saved yet: the stored variable must have the expected ones.
pub fn check_classification(doc: &EnvironmentDocument, key: &str, expected_type: VariableType, expected_secret: bool) -> (r: Result<(), EnvironmentError>)
    ensures
        match find_var(doc.variables@, key@) {
            None => r matches Err(EnvironmentError::Invalid(m)) && m@ == gone_message(),
            Some(v) => if v.value_type != expected_type || v.is_secret != expected_secret {
                r matches Err(EnvironmentError::Invalid(m)) && m@ == unsaved_classification_message()
            } else {
                r is Ok
            },
        },
{
    match find_var_index(&doc.variables, key) {
        None => Err(EnvironmentError::Invalid("Variable no longer exists".to_owned())),
        Some(i) => {
            let v = &doc.variables[i];
            if v.value_type != expected_type || v.is_secret != expected_secret {
                Err(EnvironmentError::Invalid("Save type and secret changes before applying a local value".to_owned()))
            } else {
                Ok(())
            }
        },
    }
}


/// Both Boolean literals are accepted, and any other plain value (non-empty,
/// not a template) is refused for a Boolean variable.
pub proof fn law_boolean_values(v: Seq<char>)
    ensures
        value_ok(VariableType::Boolean, "true"@),
        value_ok(VariableType::Boolean, "false"@),
        v.len() > 0 && !contains_seq(v, "{{"@) && v != "true"@ && v != "false"@
            ==> !value_ok(VariableType::Boolean, v),
{
}
} // verus!
