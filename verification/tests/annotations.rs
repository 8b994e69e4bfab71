use packetsmith::annotations::{
    VariableHighlightState, VariableTextResource, VariableUiController, VariableUiError,
};
use packetsmith::domain::{ResourceId, VariableScope};
use packetsmith::resolver::{VariableResolver, VariableSource, SECRET_MASK};

fn controller() -> VariableUiController {
    VariableUiController::new(
        VariableResolver::new()
            .with_globals(vec![("host".to_string(), "api.test".to_string())])
            .with_vault(vec![("token".to_string(), "secret-value".to_string())]),
    )
}

#[test]
fn analysis_distinguishes_resolved_secret_dynamic_and_unresolved_tokens() {
    let analysis =
        controller().analyze("{{host}} {{vault:token}} {{$uuid}} {{missing}} \\{{literal}}");
    assert_eq!(analysis.highlights.len(), 4);
    assert_eq!(analysis.highlights[0].state, VariableHighlightState::Resolved);
    assert_eq!(analysis.highlights[1].state, VariableHighlightState::Secret);
    assert_eq!(analysis.highlights[2].state, VariableHighlightState::Dynamic);
    assert_eq!(analysis.highlights[3].state, VariableHighlightState::Unresolved);
}

#[test]
fn secret_hover_never_contains_the_raw_value() {
    let hover = controller().hover_at("Bearer {{vault:token}}", 12).unwrap();
    assert!(hover.is_secret);
    assert_eq!(hover.display_value, SECRET_MASK);
    assert!(!format!("{hover:?}").contains("secret-value"));
}

#[test]
fn create_jump_and_find_usages_form_one_editor_workflow() {
    let resource_id = ResourceId::new();
    let mut controller = controller();
    controller
        .create_from_unresolved(
            "account_id",
            "42",
            VariableSource::new(VariableScope::Request, "Get account").with_resource_id(resource_id),
            false,
        )
        .unwrap();

    let target = controller.jump_to_variable("/accounts/{{account_id}}", 15).unwrap();
    assert_eq!(target.resource_id, Some(resource_id));

    let usages = controller.find_usages(
        "account_id",
        &[VariableTextResource {
            resource_id,
            resource_label: "Get account".into(),
            field: "URL".into(),
            text: "/accounts/{{account_id}}?owner={{account_id}}".into(),
        }],
    );
    assert_eq!(usages.len(), 2);
}

#[test]
fn highlight_labels_and_ranges() {
    let analysis = controller().analyze("x{{host}} {{bad name}} {{vault:token}}");
    assert_eq!(analysis.highlights.len(), 3);
    assert_eq!(analysis.highlights[0].range, 1..9);
    assert_eq!(analysis.highlights[0].accessibility_label, "Resolved variable host, from Workspace");
    assert_eq!(analysis.highlights[1].state, VariableHighlightState::Invalid);
    assert_eq!(analysis.highlights[1].accessibility_label, "Invalid variable reference bad name");
    assert_eq!(
        analysis.highlights[2].accessibility_label,
        "Secret variable vault:token, value hidden, from Vault"
    );
    assert!(!analysis.diagnostics.is_empty());
}

#[test]
fn hover_outside_references_and_on_unresolved_names() {
    let c = controller();
    assert!(c.hover_at("{{host}} tail", 10).is_none());
    let unresolved = c.hover_at("{{nope}}", 3).unwrap();
    assert_eq!(unresolved.display_value, "Unresolved");
    assert_eq!(unresolved.source_label, "No matching definition");
    assert!(!unresolved.can_jump_to_definition);
    let host = c.hover_at("{{host}}", 0).unwrap();
    assert_eq!(host.display_value, "api.test");
    assert_eq!(host.scope_label, "Workspace");
    assert!(host.can_jump_to_definition);
    assert!(c.hover_at("\\{{host}}", 3).is_none());
}

#[test]
fn dynamic_variables_have_no_definition_to_jump_to() {
    let c = controller();
    assert!(c.jump_to_variable("{{$uuid}}", 2).is_none());
    let target = c.jump_to_variable("{{host}}", 2).unwrap();
    assert_eq!(target.name, "host");
    assert_eq!(target.scope, VariableScope::Global);
}

#[test]
fn creation_is_refused_for_bad_or_known_names() {
    let mut c = controller();
    let source = VariableSource::new(VariableScope::Request, "Req");
    assert_eq!(
        c.create_from_unresolved("bad name", "1", source.copy(), false),
        Err(VariableUiError::InvalidName("bad name".to_string()))
    );
    assert_eq!(
        c.create_from_unresolved("host", "1", source.copy(), false),
        Err(VariableUiError::AlreadyResolved("host".to_string()))
    );
    assert_eq!(
        VariableUiError::AlreadyResolved("host".to_string()).message(),
        "Variable 'host' is already resolved; create-from-unresolved was not applied"
    );
    assert!(c.create_from_unresolved("fresh", "1", source, true).is_ok());
    assert_eq!(c.hover_at("{{fresh}}", 2).unwrap().display_value, SECRET_MASK);
}

#[test]
fn usages_are_sorted_by_label_field_and_position() {
    let a = ResourceId::from_u128(1);
    let b = ResourceId::from_u128(2);
    let resources = [
        VariableTextResource {
            resource_id: b,
            resource_label: "Zeta".into(),
            field: "URL".into(),
            text: "{{id}}".into(),
        },
        VariableTextResource {
            resource_id: a,
            resource_label: "Alpha".into(),
            field: "Body".into(),
            text: "{{x}} {{id}} \\{{id}} {{id}}".into(),
        },
    ];
    let usages = controller().find_usages("id", &resources);
    assert_eq!(usages.len(), 3);
    assert_eq!(usages[0].resource_label, "Alpha");
    assert_eq!(usages[0].range, 6..12);
    assert_eq!(usages[1].range, 21..27);
    assert_eq!(usages[2].resource_id, b);
}
