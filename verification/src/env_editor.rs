//! The variable editor of the environments view: what it shows when a row
//! opens, the variable it saves, and when a session value may be applied.
//! A hidden default is never shown, and an untouched masked vault reference
//! is kept rather than cleared.
use vstd::prelude::*;
use crate::domain::{copy_opt_string, VariableEntry, VariableType};
use crate::environments::{find_var, find_var_index, hidden, EnvironmentDocument};
use crate::text::{chars_of, str_eq};

verus! {

/// The texts and choices of an open row editor.
pub struct RowDraft {
    /// The key of the variable being edited; `None` for a new variable.
    pub old_key: Option<String>,
    pub key: String,
    pub default: String,
    pub current: String,
    pub description: String,
    pub kind: VariableType,
    pub secret: bool,
    pub enabled: bool,
    /// Whether an empty default still stands for the stored one.
    pub preserve_default: bool,
}

pub open spec fn raw_secret_message() -> Seq<char> {
    "Raw secrets belong in Current/local value. Shared defaults support vault references only."@
}

pub open spec fn save_first_message() -> Seq<char> {
    "Save the new variable before setting its current value."@
}

pub open spec fn unsaved_changes_message() -> Seq<char> {
    "Save key, type, and secret changes before applying a local value."@
}

pub open spec fn text_of(o: Option<String>) -> Seq<char> {
    match o {
        Some(s) => s@,
        None => Seq::empty(),
    }
}

/// The editor for a variable (a blank public text variable when `None`);
/// the default of a hidden variable is left empty.
pub fn open_row(entry: Option<&VariableEntry>) -> (r: RowDraft)
    ensures
        r.current@.len() == 0,
        r.preserve_default,
        match entry {
            Some(v) => {
                &&& r.old_key == Some(v.key)
                &&& r.key == v.key
                &&& r.default@ == if hidden(*v) {
                    Seq::empty()
                } else {
                    v.value@
                }
                &&& r.description@ == text_of(v.description)
                &&& r.kind == v.value_type
                &&& r.secret == v.is_secret
                &&& r.enabled == v.enabled
            },
            None => {
                &&& r.old_key is None
                &&& r.key@.len() == 0
                &&& r.default@.len() == 0
                &&& r.description@.len() == 0
                &&& r.kind == VariableType::String
                &&& !r.secret
                &&& r.enabled
            },
        },
{
    match entry {
        Some(v) => {
            let hide = v.is_secret || v.value_type == VariableType::SecretReference;
            let default = if hide {
                String::new()
            } else {
                v.value.clone()
            };
            let description = match &v.description {
                Some(d) => d.clone(),
                None => String::new(),
            };
            RowDraft {
                old_key: Some(v.key.clone()),
                key: v.key.clone(),
                default,
                current: String::new(),
                description,
                kind: v.value_type,
                secret: v.is_secret,
                enabled: v.enabled,
                preserve_default: true,
            }
        },
        None => RowDraft {
            old_key: None,
            key: String::new(),
            default: String::new(),
            current: String::new(),
            description: String::new(),
            kind: VariableType::String,
            secret: false,
            enabled: true,
            preserve_default: true,
        },
    }
}

/// The default that is saved: the stored vault reference when the masked
/// default of a vault reference was left untouched and empty, the text
/// otherwise.
pub open spec fn kept_default(doc: Option<EnvironmentDocument>, d: RowDraft) -> Seq<char> {
    if d.preserve_default && d.default@.len() == 0 && d.kind == VariableType::SecretReference {
        match (doc, d.old_key) {
            (Some(doc), Some(k)) => match find_var(doc.variables@, k@) {
                Some(old) => if old.value_type == d.kind {
                    old.value@
                } else {
                    d.default@
                },
                None => d.default@,
            },
            _ => d.default@,
        }
    } else {
        d.default@
    }
}

fn is_empty_text(s: &str) -> (r: bool)
    ensures
        r == (s@.len() == 0),
{
    chars_of(s).len() == 0
}

/// The variable a row editor saves, or why it cannot: a secret other than a
/// vault reference may not have a stored default.
pub fn row_entry(doc: Option<&EnvironmentDocument>, d: &RowDraft) -> (r: Result<VariableEntry, String>)
    ensures
        ({
            let value = kept_default(
                match doc {
                    Some(x) => Some(*x),
                    None => None,
                },
                *d,
            );
            if d.secret && d.kind != VariableType::SecretReference && value.len() > 0 {
                r matches Err(m) && m@ == raw_secret_message()
            } else {
                r matches Ok(v) && v.key == d.key && v.value@ == value && v.value_type == d.kind
                    && v.is_secret == d.secret && v.enabled == d.enabled && v.description == if d.description@.len()
                    == 0 {
                    None
                } else {
                    Some(d.description)
                }
            }
        }),
{
    let mut value = d.default.clone();
    if d.preserve_default && is_empty_text(d.default.as_str()) && d.kind == VariableType::SecretReference {
        match (doc, &d.old_key) {
            (Some(x), Some(k)) => {
                match find_var_index(&x.variables, k.as_str()) {
                    Some(i) => {
                        if x.variables[i].value_type == d.kind {
                            value = x.variables[i].value.clone();
                        }
                    },
                    None => {},
                }
            },
            _ => {},
        }
    }
    if d.secret && d.kind != VariableType::SecretReference && !is_empty_text(value.as_str()) {
        return Err("Raw secrets belong in Current/local value. Shared defaults support vault references only.".to_owned());
    }
    let description = if is_empty_text(d.description.as_str()) {
        None
    } else {
        Some(d.description.clone())
    };
    Ok(
        VariableEntry {
            key: d.key.clone(),
            value,
            is_secret: d.secret,
            enabled: d.enabled,
            value_type: d.kind,
            description,
        },
    )
}

/// The key whose session value the editor may set, or why not: a new
/// variable must be saved first, and so must changes to its key, type or
/// secret flag.
pub fn current_target(doc: Option<&EnvironmentDocument>, d: &RowDraft) -> (r: Result<String, String>)
    ensures
        match d.old_key {
            None => r matches Err(m) && m@ == save_first_message(),
            Some(k) => {
                let stored = match doc {
                    Some(x) => find_var(x.variables@, k@),
                    None => None,
                };
                match stored {
                    Some(v) => if v.is_secret == d.secret && v.value_type == d.kind && v.key@ == d.key@ {
                        r matches Ok(t) && t == k
                    } else {
                        r matches Err(m) && m@ == unsaved_changes_message()
                    },
                    None => r matches Err(m) && m@ == unsaved_changes_message(),
                }
            },
        },
{
    let key = match &d.old_key {
        Some(k) => k,
        None => return Err("Save the new variable before setting its current value.".to_owned()),
    };
    let refused = "Save key, type, and secret changes before applying a local value.";
    match doc {
        Some(x) => match find_var_index(&x.variables, key.as_str()) {
            Some(i) => {
                let v = &x.variables[i];
                if v.is_secret == d.secret && v.value_type == d.kind && str_eq(v.key.as_str(), d.key.as_str()) {
                    Ok(key.clone())
                } else {
                    Err(refused.to_owned())
                }
            },
            None => Err(refused.to_owned()),
        },
        None => Err(refused.to_owned()),
    }
}

} // verus!
