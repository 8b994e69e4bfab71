use packetsmith::domain::{ResourceId, VariableEntry, VariableType};
use packetsmith::domain::VariableScope;
use packetsmith::environments::{
    check_classification, edit_variable, environment_definitions, next_in_cycle, remove_variable,
    validate_value, EnvironmentDocument, EnvironmentError, EnvironmentManager, LocalOverride,
};
use packetsmith::resolver::{VariableResolver, SECRET_MASK};
use std::path::PathBuf;

fn fresh_manager() -> EnvironmentManager {
    EnvironmentManager::new(PathBuf::from("/tmp/packetsmith-env-test"))
}

fn add(manager: &mut EnvironmentManager, name: &str, variables: Vec<VariableEntry>) -> ResourceId {
    let mut doc = EnvironmentDocument::new(name);
    doc.variables = variables;
    let doc = manager.prepare_new(doc).unwrap();
    let id = doc.id;
    manager.add_document(doc, PathBuf::from(format!("/tmp/{}.env.yaml", id.to_string())));
    id
}

fn save(manager: &mut EnvironmentManager, doc: EnvironmentDocument) -> Result<(), EnvironmentError> {
    let prepared = manager.prepare_save(doc, 0)?;
    manager.commit_save(prepared);
    Ok(())
}

#[test]
fn typed_values_and_vault_reference_validation_do_not_echo_secrets() {
    assert!(validate_value(VariableType::Number, "12.5").is_ok());
    assert!(validate_value(VariableType::Boolean, "false").is_ok());
    assert!(validate_value(VariableType::Json, "{\"a\":1}").is_ok());
    assert!(validate_value(VariableType::SecretReference, "{{vault:token}}").is_ok());
    let error = validate_value(VariableType::SecretReference, "private-token").unwrap_err();
    assert!(!error.message().contains("private-token"));
    assert!(validate_value(VariableType::Number, "NaN").is_err());
}

#[test]
fn empty_values_and_templates_fit_every_type() {
    assert!(validate_value(VariableType::Number, "").is_ok());
    assert!(validate_value(VariableType::Boolean, "{{flag}}").is_ok());
    assert!(validate_value(VariableType::SecretReference, "{{token}}").is_err());
    assert!(validate_value(VariableType::SecretReference, "{{vault:}}").is_err());
    assert!(validate_value(VariableType::Boolean, "yes").is_err());
    assert_eq!(
        validate_value(VariableType::Json, "{").unwrap_err().message(),
        "Invalid environment: Value does not match declared type"
    );
}

#[test]
fn production_check_includes_absent_disabled_and_empty_reference_keys() {
    let mut manager = fresh_manager();
    let reference = add(
        &mut manager,
        "Development",
        vec![
            VariableEntry::new("host", "localhost"),
            VariableEntry::secret("token", ""),
            VariableEntry::new("absent", "required"),
        ],
    );
    let mut disabled = VariableEntry::new("host", "production");
    disabled.enabled = false;
    let target = add(
        &mut manager,
        "Production",
        vec![disabled, VariableEntry::secret("token", ""), VariableEntry::new("empty", "")],
    );
    manager.set_current(target, "token", Some("private-production-token".into())).unwrap();
    assert_eq!(
        manager.missing_values_against(target, reference).unwrap(),
        vec!["absent", "empty", "host"]
    );
    let diff = format!("{:?}", manager.diff(reference, target).unwrap());
    assert!(!diff.contains("private-production-token"));
    let copy = manager.duplicate_document(target, "Clone", 0).unwrap();
    let copy = manager.prepare_new(copy).unwrap();
    let clone = copy.id;
    manager.add_document(copy, PathBuf::from("/tmp/clone.env.yaml"));
    assert!(manager
        .effective_variables(clone)
        .unwrap()
        .iter()
        .find(|v| v.key == "token")
        .unwrap()
        .value
        .is_empty());
}

#[test]
fn secrets_and_current_values_never_leave_the_session() {
    let mut manager = fresh_manager();
    let id = add(
        &mut manager,
        "Production",
        vec![VariableEntry::secret("token", "default-secret"), VariableEntry::new("host", "default-host")],
    );
    manager.set_current(id, "token", Some("local-secret".into())).unwrap();
    manager.set_current(id, "host", Some("local-host".into())).unwrap();
    let export = format!("{:?}", manager.export_document(id).unwrap());
    for hidden in ["default-secret", "local-secret", "local-host"] {
        assert!(!export.contains(hidden));
    }
    assert_eq!(manager.rows(id).unwrap()[0].current_value.as_deref(), Some("••••••••"));
    assert_eq!(manager.rows(id).unwrap()[0].default_value, "••••••••");
    assert_eq!(manager.effective_variables(id).unwrap()[0].value, "local-secret");
    assert_eq!(manager.missing_values(id).unwrap(), Vec::<String>::new());
    manager.set_current(id, "token", None).unwrap();
    assert_eq!(manager.missing_values(id).unwrap(), vec!["token"]);
}

#[test]
fn local_snapshot_restores_selection_and_empty_values_without_secrets() {
    let mut manager = fresh_manager();
    let id = add(
        &mut manager,
        "Production",
        vec![VariableEntry::new("host", "default"), VariableEntry::secret("token", "")],
    );
    manager.set_current(id, "host", Some(String::new())).unwrap();
    manager.set_current(id, "token", Some("private-token".into())).unwrap();
    let snapshot = manager.local_snapshot(Some(id)).unwrap();
    assert_eq!(snapshot.len(), 1);
    assert_eq!(snapshot[0].key, "host");
    assert!(snapshot.iter().all(|o| o.value != "private-token"));

    let mut restored = fresh_manager();
    let mut doc = manager.get(id).unwrap().copy();
    doc.variables = vec![VariableEntry::new("host", "default"), VariableEntry::secret("token", "")];
    let doc = restored.prepare_new(doc).unwrap();
    restored.add_document(doc, PathBuf::from("/tmp/p.env.yaml"));
    assert_eq!(restored.apply_snapshot(1, Some(id), &snapshot).unwrap(), Some(id));
    assert_eq!(restored.rows(id).unwrap()[0].current_value.as_deref(), Some(""));
    assert_eq!(restored.rows(id).unwrap()[1].current_value, None);
    assert_eq!(restored.apply_snapshot(1, None, &Vec::new()).unwrap(), None);
    assert_eq!(restored.rows(id).unwrap()[0].current_value, None);
}

#[test]
fn reload_retains_sessions_but_discards_changed_classifications() {
    let mut manager = fresh_manager();
    let id = add(
        &mut manager,
        "Staging",
        vec![VariableEntry::new("host", "default"), VariableEntry::secret("token", "")],
    );
    manager.set_current(id, "host", Some("local".into())).unwrap();
    manager.set_current(id, "token", Some("session-secret".into())).unwrap();

    let mut same = fresh_manager();
    let doc = same.prepare_new(manager.get(id).unwrap().copy()).unwrap();
    same.add_document(doc, PathBuf::from("/tmp/s.env.yaml"));
    manager.carry_sessions(&mut same);
    assert_eq!(same.effective_variables(id).unwrap()[1].value, "session-secret");
    assert_eq!(same.effective_variables(id).unwrap()[0].value, "local");

    let mut changed = fresh_manager();
    let mut doc = manager.get(id).unwrap().copy();
    doc.variables[0].is_secret = true;
    let doc = changed.prepare_new(doc).unwrap();
    changed.add_document(doc, PathBuf::from("/tmp/c.env.yaml"));
    manager.carry_sessions(&mut changed);
    assert_eq!(changed.rows(id).unwrap()[0].current_value, None);
    assert_eq!(changed.effective_variables(id).unwrap()[1].value, "session-secret");
}

#[test]
fn invalid_snapshot_is_atomic_and_does_not_echo_contents() {
    let mut manager = fresh_manager();
    let id = add(&mut manager, "Staging", vec![VariableEntry::new("host", "default")]);
    manager.set_current(id, "host", Some("local".into())).unwrap();
    let error = manager.apply_snapshot(2, None, &Vec::new()).unwrap_err();
    assert_eq!(error.message(), "Invalid environment: Unsupported local environment state version");
    assert_eq!(manager.effective_variables(id).unwrap()[0].value, "local");
    let duplicated = vec![
        LocalOverride { environment: id, key: "host".into(), value: "a".into(), value_type: VariableType::String },
        LocalOverride { environment: id, key: "host".into(), value: "private-b".into(), value_type: VariableType::String },
    ];
    let error = manager.apply_snapshot(1, Some(id), &duplicated).unwrap_err();
    assert!(!error.message().contains("private-b"));
    assert_eq!(manager.effective_variables(id).unwrap()[0].value, "local");
}

#[test]
fn lifecycle_rename_validation_and_removal() {
    let mut manager = fresh_manager();
    let id = add(&mut manager, "Staging", vec![VariableEntry::new("host", "staging")]);
    let mut doc = manager.get(id).unwrap().copy();
    doc.name = "Production".to_string();
    save(&mut manager, doc).unwrap();
    assert_eq!(manager.get(id).unwrap().name, "Production");
    let mut doc = manager.get(id).unwrap().copy();
    doc.variables.push(VariableEntry::new("host", "duplicate"));
    assert!(save(&mut manager, doc).is_err());
    let other = add(&mut manager, "Alpha", vec![VariableEntry::new("host", "staging")]);
    let names: Vec<String> = manager.list().iter().map(|d| d.name.clone()).collect();
    assert_eq!(names, vec!["Alpha", "Production"]);
    assert!(manager.diff(id, other).unwrap().is_empty());
    manager.set_current(other, "host", Some("production".into())).unwrap();
    assert_eq!(manager.diff(id, other).unwrap().len(), 1);
    manager.forget(id).unwrap();
    assert!(manager.get(id).is_err());
    assert!(manager.path_of(id).is_none());
    assert!(matches!(manager.forget(id), Err(EnvironmentError::Missing(_))));
}

#[test]
fn session_values_must_fit_their_variable() {
    let mut manager = fresh_manager();
    let mut port = VariableEntry::new("port", "8080");
    port.value_type = VariableType::Number;
    let id = add(&mut manager, "Local", vec![port]);
    assert!(manager.set_current(id, "port", Some("eighty".into())).is_err());
    assert!(manager.set_current(id, "missing", Some("1".into())).is_err());
    assert!(manager.set_current(ResourceId::new(), "port", None).is_err());
    assert!(manager.set_current(id, "port", Some("81".into())).is_ok());
    assert_eq!(manager.effective_variables(id).unwrap()[0].value, "81");
    let mut bad = EnvironmentDocument::new("  ");
    bad.variables.push(VariableEntry::new("ok", "1"));
    assert_eq!(manager.prepare_new(bad).err().unwrap().message(), "Invalid environment: Name is required");
}

#[test]
fn environment_values_replace_the_environment_scope() {
    let mut manager = fresh_manager();
    let id = add(
        &mut manager,
        "Staging",
        vec![VariableEntry::new("host", "staging.test"), VariableEntry::secret("token", "")],
    );
    manager.set_current(id, "token", Some("session-token".into())).unwrap();
    let effective = manager.effective_variables(id).unwrap();
    let defs = environment_definitions(manager.get(id).unwrap(), &effective);
    assert_eq!(defs.len(), 2);
    assert!(defs[1].is_secret);
    assert_eq!(defs[0].source.label, "Staging");
    assert_eq!(defs[0].source.resource_id, Some(id));
    let mut resolver = VariableResolver::new()
        .with_environment(vec![("stale".to_string(), "old".to_string())])
        .with_globals(vec![("host".to_string(), "global.test".to_string())]);
    resolver.replace_scope(VariableScope::Environment, defs);
    assert_eq!(resolver.resolve_var("host").as_deref(), Some("staging.test"));
    assert!(resolver.resolve_var("stale").is_none());
    let result = resolver.resolve_template("{{token}}");
    assert_eq!(result.value, "session-token");
    assert_eq!(result.display_value, SECRET_MASK);
}

#[test]
fn the_picker_cycles_through_environments_and_none() {
    let a = ResourceId::from_u128(1);
    let b = ResourceId::from_u128(2);
    let ids = vec![a, b];
    assert_eq!(next_in_cycle(&ids, None), Some(a));
    assert_eq!(next_in_cycle(&ids, Some(a)), Some(b));
    assert_eq!(next_in_cycle(&ids, Some(b)), None);
    assert_eq!(next_in_cycle(&ids, Some(ResourceId::from_u128(3))), None);
    assert_eq!(next_in_cycle(&Vec::new(), None), None);
}

#[test]
fn editing_variables_in_a_document() {
    let mut doc = EnvironmentDocument::new("Dev");
    doc.variables = vec![VariableEntry::new("host", "a"), VariableEntry::new("port", "1")];
    let edited = edit_variable(&doc, Some("host"), VariableEntry::new("url", "b")).unwrap();
    assert_eq!(edited.variables[0].key, "url");
    assert_eq!(edited.variables.len(), 2);
    let added = edit_variable(&doc, None, VariableEntry::new("x", "y")).unwrap();
    assert_eq!(added.variables.len(), 3);
    assert_eq!(
        edit_variable(&doc, Some("gone"), VariableEntry::new("x", "y")).unwrap_err().message(),
        "Invalid environment: Variable no longer exists; reload the editor"
    );
    let removed = remove_variable(&doc, "host");
    assert_eq!(removed.variables.len(), 1);
    assert_eq!(removed.variables[0].key, "port");
    assert!(check_classification(&doc, "host", VariableType::String, false).is_ok());
    assert_eq!(
        check_classification(&doc, "host", VariableType::String, true).unwrap_err().message(),
        "Invalid environment: Save type and secret changes before applying a local value"
    );
    assert!(check_classification(&doc, "nope", VariableType::String, false).is_err());
}

#[test]
fn a_copied_manager_changes_independently() {
    let mut manager = fresh_manager();
    let id = add(&mut manager, "Staging", vec![VariableEntry::new("host", "default")]);
    manager.set_current(id, "host", Some("session".into())).unwrap();
    let mut copy = manager.copy();
    assert_eq!(copy.effective_variables(id).unwrap()[0].value, "session");
    copy.set_current(id, "host", None).unwrap();
    assert_eq!(copy.effective_variables(id).unwrap()[0].value, "default");
    assert_eq!(manager.effective_variables(id).unwrap()[0].value, "session");
    assert_eq!(copy.path_of(id), manager.path_of(id));
}
