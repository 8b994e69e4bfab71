use packetsmith::domain::{VariableEntry, VariableType};
use packetsmith::env_editor::{current_target, open_row, row_entry};
use packetsmith::environments::EnvironmentDocument;

fn doc_with(variables: Vec<VariableEntry>) -> EnvironmentDocument {
    let mut doc = EnvironmentDocument::new("Staging");
    doc.variables = variables;
    doc
}

fn reference(key: &str, value: &str) -> VariableEntry {
    let mut v = VariableEntry::secret(key, value);
    v.value_type = VariableType::SecretReference;
    v
}

#[test]
fn opening_a_row_hides_secret_defaults() {
    let mut public = VariableEntry::new("host", "api.test");
    public.description = Some("Base host".into());
    let row = open_row(Some(&public));
    assert_eq!(row.old_key.as_deref(), Some("host"));
    assert_eq!(row.default, "api.test");
    assert_eq!(row.description, "Base host");
    let row = open_row(Some(&reference("token", "{{vault:token}}")));
    assert_eq!(row.default, "");
    assert!(row.preserve_default);
    let blank = open_row(None);
    assert!(blank.old_key.is_none() && blank.key.is_empty() && blank.enabled && !blank.secret);
}

#[test]
fn an_untouched_vault_reference_is_kept() {
    let doc = doc_with(vec![reference("token", "{{vault:token}}")]);
    let row = open_row(Some(&doc.variables[0]));
    let saved = row_entry(Some(&doc), &row).unwrap();
    assert_eq!(saved.value, "{{vault:token}}");
    assert_eq!(saved.description, None);
    let mut cleared = open_row(Some(&doc.variables[0]));
    cleared.preserve_default = false;
    assert_eq!(row_entry(Some(&doc), &cleared).unwrap().value, "");
}

#[test]
fn raw_secret_defaults_are_refused() {
    let doc = doc_with(vec![]);
    let mut row = open_row(None);
    row.key = "password".into();
    row.secret = true;
    row.default = "hunter2".into();
    let message = row_entry(Some(&doc), &row).unwrap_err();
    assert_eq!(message, "Raw secrets belong in Current/local value. Shared defaults support vault references only.");
    assert!(!message.contains("hunter2"));
    row.default.clear();
    assert!(row_entry(Some(&doc), &row).is_ok());
}

#[test]
fn session_values_need_a_saved_classification() {
    let doc = doc_with(vec![VariableEntry::new("host", "a")]);
    let new_row = open_row(None);
    assert_eq!(current_target(Some(&doc), &new_row).unwrap_err(), "Save the new variable before setting its current value.");
    let mut row = open_row(Some(&doc.variables[0]));
    assert_eq!(current_target(Some(&doc), &row).unwrap(), "host");
    row.kind = VariableType::Number;
    assert_eq!(
        current_target(Some(&doc), &row).unwrap_err(),
        "Save key, type, and secret changes before applying a local value."
    );
    row.kind = VariableType::String;
    row.key = "renamed".into();
    assert!(current_target(Some(&doc), &row).is_err());
    assert!(current_target(None, &open_row(Some(&doc.variables[0]))).is_err());
}
