use std::sync::Arc;

use packetsmith::domain::VariableScope;
use packetsmith::engine::redact_sensitive_header;
use packetsmith::resolver::{
    DynamicVariableProvider, GeneratedVariable, VariableDefinition, VariableResolver, VariableSource,
    SECRET_MASK,
};
use packetsmith::template::{is_valid_variable_name, parse_template, VariableDiagnosticKind};

fn pairs(items: &[(&str, &str)]) -> Vec<(String, String)> {
    items.iter().map(|(k, v)| (k.to_string(), v.to_string())).collect()
}

#[test]
fn parser_detects_valid_escaped_and_invalid_references() {
    let input = r"/{{user.id}}/\{{literal}}/{{bad name}}/{{unterminated";
    let parsed = parse_template(input);
    assert_eq!(parsed.references.len(), 3);
    assert_eq!(parsed.references[0].name, "user.id");
    assert!(parsed.references[1].escaped);
    assert!(!parsed.references[2].valid);
    assert_eq!(parsed.diagnostics.len(), 2);
}

#[test]
fn scope_precedence_and_nested_values_are_deterministic() {
    let resolver = VariableResolver::new()
        .with_globals(pairs(&[("host", "global.test"), ("url", "https://{{host}}")]))
        .with_environment(pairs(&[("host", "staging.test")]))
        .with_request(pairs(&[("version", "v2")]));

    let result = resolver.resolve_template("{{url}}/{{version}}");
    assert_eq!(result.value, "https://staging.test/v2");
    assert!(result.is_complete());
    assert_eq!(
        result.occurrences[1].resolved.as_ref().unwrap().provenance.source.scope,
        VariableScope::Request
    );
}

#[test]
fn every_runtime_scope_participates_in_precedence() {
    let key = "candidate";
    let mut resolver = VariableResolver::new()
        .with_globals(pairs(&[(key, "global")]))
        .with_environment(pairs(&[(key, "environment")]))
        .with_collection(pairs(&[(key, "collection")]))
        .with_folder(pairs(&[(key, "folder")]))
        .with_request(pairs(&[(key, "request")]))
        .with_iteration(pairs(&[(key, "iteration")]))
        .with_temporary(pairs(&[(key, "temporary")]));

    assert_eq!(resolver.resolve_var(key).as_deref(), Some("temporary"));
    resolver.remove(VariableScope::Ephemeral, key);
    assert_eq!(resolver.resolve_var(key).as_deref(), Some("iteration"));
    resolver.remove(VariableScope::Iteration, key);
    assert_eq!(resolver.resolve_var(key).as_deref(), Some("request"));
    resolver.remove(VariableScope::Request, key);
    assert_eq!(resolver.resolve_var(key).as_deref(), Some("folder"));
    resolver.remove(VariableScope::Folder, key);
    assert_eq!(resolver.resolve_var(key).as_deref(), Some("collection"));
    resolver.remove(VariableScope::Collection, key);
    assert_eq!(resolver.resolve_var(key).as_deref(), Some("environment"));
    resolver.remove(VariableScope::Environment, key);
    assert_eq!(resolver.resolve_var(key).as_deref(), Some("global"));
}

#[test]
fn unresolved_and_cyclic_references_remain_visible() {
    let resolver = VariableResolver::new().with_globals(pairs(&[("a", "{{b}}"), ("b", "{{a}}")]));
    let unresolved = resolver.resolve_template("/{{missing}}");
    assert_eq!(unresolved.value, "/{{missing}}");
    assert_eq!(unresolved.diagnostics[0].kind, VariableDiagnosticKind::UnresolvedReference);

    let cyclic = resolver.resolve_template("{{a}}");
    assert_eq!(cyclic.value, "{{a}}");
    assert_eq!(cyclic.diagnostics[0].kind, VariableDiagnosticKind::CyclicReference);
}

#[test]
fn secret_values_are_separate_from_display_values() {
    let resolver = VariableResolver::new().with_vault(pairs(&[("token", "super-secret")]));
    let result = resolver.resolve_template("Bearer {{vault:token}}");
    assert_eq!(result.value, "Bearer super-secret");
    assert_eq!(result.display_value, format!("Bearer {SECRET_MASK}"));
    assert!(result.occurrences[0].resolved.as_ref().unwrap().is_secret);
}

#[test]
fn secret_taint_propagates_through_nested_variables() {
    let resolver = VariableResolver::new()
        .with_globals(pairs(&[("authorization", "Bearer {{vault:token}}")]))
        .with_vault(pairs(&[("token", "super-secret")]));
    let result = resolver.resolve_template("{{authorization}}");
    assert_eq!(result.value, "Bearer super-secret");
    assert_eq!(result.display_value, SECRET_MASK);
    assert!(!result.debug_string().contains("super-secret"));
}

#[test]
fn object_paths_and_escaped_templates_are_supported() {
    let resolver =
        VariableResolver::new().with_globals(pairs(&[("user", r#"{"profile":{"id":42}}"#)]));
    let result = resolver.resolve_template(r"\{{literal}}/{{user.profile.id}}");
    assert_eq!(result.value, "{{literal}}/42");
}

#[test]
fn all_dynamic_variables_resolve() {
    let resolver = VariableResolver::new();
    for name in [
        "$uuid",
        "$timestamp",
        "$isoTimestamp",
        "$randomInt",
        "$randomString",
        "$randomEmail",
        "$randomIp",
        "$randomDate",
        "$randomBytes",
    ] {
        assert!(resolver.resolve(name).is_ok(), "{name} should resolve");
    }
}

struct CustomDynamicProvider;

impl DynamicVariableProvider for CustomDynamicProvider {
    fn generate(&self, name: &str) -> Option<GeneratedVariable> {
        (name == "$ticket").then(|| GeneratedVariable::public("PS-42"))
    }
}

#[test]
fn custom_dynamic_provider_extends_the_registry() {
    let mut resolver = VariableResolver::new();
    resolver.register_dynamic_provider(Arc::new(CustomDynamicProvider));
    assert_eq!(resolver.resolve_var("$ticket").as_deref(), Some("PS-42"));
}

#[test]
fn test_variable_scope_precedence() {
    let resolver = VariableResolver::new()
        .with_globals(pairs(&[("host", "api.global.com"), ("version", "v1")]))
        .with_environment(pairs(&[("host", "api.staging.com")]))
        .with_request(pairs(&[("version", "v2")]));

    let url = resolver.interpolate("https://{{host}}/{{version}}/users");
    assert_eq!(url, "https://api.staging.com/v2/users");
}

#[test]
fn test_dynamic_variables() {
    let resolver = VariableResolver::new();
    let interpolated = resolver.interpolate("ID: {{$guid}}, Time: {{$timestamp}}");
    assert!(interpolated.starts_with("ID: "));
    assert!(interpolated.contains(", Time: "));
}

#[test]
fn test_sensitive_header_redaction() {
    assert_eq!(redact_sensitive_header("Authorization", "Bearer secret_123"), "[REDACTED]");
    assert_eq!(redact_sensitive_header("Content-Type", "application/json"), "application/json");
}

#[test]
fn redaction_covers_cookies_and_key_like_names() {
    assert_eq!(redact_sensitive_header("Set-Cookie", "a=b"), "[REDACTED]");
    assert_eq!(redact_sensitive_header("X-Api-Key", "k"), "[REDACTED]");
    assert_eq!(redact_sensitive_header("X-Client-Secret", "s"), "[REDACTED]");
    assert_eq!(redact_sensitive_header("Refresh-Token", "t"), "[REDACTED]");
    assert_eq!(redact_sensitive_header("Accept", "*/*"), "*/*");
}

#[test]
fn plain_templates_are_returned_unchanged() {
    let resolver = VariableResolver::new();
    let result = resolver.resolve_template("no references here {");
    assert_eq!(result.value, "no references here {");
    assert_eq!(result.display_value, "no references here {");
    assert!(result.occurrences.is_empty());
    assert!(result.is_complete());
}

#[test]
fn occurrence_ranges_point_at_the_output() {
    let resolver = VariableResolver::new().with_globals(pairs(&[("name", "world")]));
    let result = resolver.resolve_template("hello {{name}} and {{missing}}!");
    assert_eq!(result.value, "hello world and {{missing}}!");
    let chars: Vec<char> = result.value.chars().collect();
    let first = &result.occurrences[0].output_range;
    let second = &result.occurrences[1].output_range;
    assert_eq!(chars[first.start..first.end].iter().collect::<String>(), "world");
    assert_eq!(chars[second.start..second.end].iter().collect::<String>(), "{{missing}}");
}

#[test]
fn vault_values_are_not_evaluated() {
    let resolver = VariableResolver::new()
        .with_globals(pairs(&[("inner", "expanded")]))
        .with_vault(pairs(&[("raw", "{{inner}}")]));
    let resolved = resolver.resolve("vault:raw").ok().unwrap();
    assert_eq!(resolved.value, "{{inner}}");
    assert_eq!(resolved.display_value, SECRET_MASK);
    assert!(resolved.is_secret);
}

#[test]
fn depth_limit_and_cycles_are_errors() {
    let resolver = VariableResolver::new()
        .with_globals(pairs(&[("a", "{{b}}"), ("b", "{{c}}"), ("c", "end")]))
        .with_max_depth(2);
    let err = resolver.resolve("a").err().unwrap();
    assert_eq!(err.message(), "Variable resolution exceeded the maximum depth of 2");
    let looped = VariableResolver::new().with_globals(pairs(&[("x", "{{x}}")]));
    assert_eq!(looped.resolve("x").err().unwrap().message(), "Cyclic variable reference: x");
    let missing = VariableResolver::new().resolve("nothing").err().unwrap();
    assert_eq!(missing.message(), "Variable 'nothing' is unresolved");
}

#[test]
fn variable_names_follow_the_naming_rules() {
    assert!(is_valid_variable_name("user.id"));
    assert!(is_valid_variable_name("$guid"));
    assert!(is_valid_variable_name("vault:token"));
    assert!(!is_valid_variable_name("bad name"));
    assert!(!is_valid_variable_name("-leading"));
    assert!(!is_valid_variable_name(""));
}

#[test]
fn debug_descriptions_mask_secret_values() {
    let source = VariableSource::new(VariableScope::Environment, "Staging");
    let public = VariableDefinition::new("host", "api.test", source.copy());
    assert_eq!(
        public.debug_string(),
        "VariableDefinition { name: host, value: api.test, is_secret: false, enabled: true, source: Staging }"
    );
    let secret = VariableDefinition::new("token", "hunter2", source).secret();
    let text = secret.debug_string();
    assert!(!text.contains("hunter2"));
    assert!(text.contains(SECRET_MASK));
    let generated = GeneratedVariable { value: "s3cr3t".into(), is_secret: true };
    assert_eq!(generated.debug_string(), format!("GeneratedVariable {{ value: {}, is_secret: true }}", SECRET_MASK));
    let shown = GeneratedVariable::public("42");
    assert_eq!(shown.debug_string(), "GeneratedVariable { value: 42, is_secret: false }");
}

#[test]
fn dollar_names_no_dynamic_variable_answers_use_definitions() {
    let resolver = VariableResolver::new().with_globals(pairs(&[("$custom", "plain")]));
    let result = resolver.resolve_template("{{$custom}}/{{$missing}}");
    assert_eq!(result.value, "plain/{{$missing}}");
    let first = result.occurrences[0].resolved.as_ref().unwrap();
    assert_eq!(first.provenance.source.scope, VariableScope::Global);
    assert!(result.occurrences[1].resolved.is_none());
}
