use packetsmith::domain::ResourceId;
use packetsmith::settings::{AppSettings, SettingsStore, WorkspaceSettingsOverride};
use packetsmith::storage::WorkspaceWatcher;
use packetsmith::ui::{ButtonProps, ButtonSize, ButtonVariant, Color, ThemeMode, ThemeRegistry};
use packetsmith::vault::{
    allows_host, canonical_domain, check_destination, check_record, destination_host_of, fits_keychain,
    new_record, validate_name, OsSecretStore, VaultError, VaultRecord,
};
use packetsmith::workspace::{slugify, validate_folder_hierarchy, WorkspaceError};
use std::path::PathBuf;

#[test]
fn test_privacy_defaults() {
    let settings = AppSettings::default();
    assert!(!settings.privacy.telemetry_enabled);
    assert!(settings.network.verify_ssl);
}

#[test]
fn test_merge_precedence() {
    let mut store = SettingsStore::new(PathBuf::from("/tmp/settings.json"));
    assert_eq!(store.effective().network.timeout_ms, 30_000);

    store.user_settings_mut().network.timeout_ms = 15_000;
    store.recompute_effective();
    assert_eq!(store.effective().network.timeout_ms, 15_000);

    store.set_workspace_override(WorkspaceSettingsOverride {
        default_timeout_ms: Some(5_000),
        ..Default::default()
    });
    assert_eq!(store.effective().network.timeout_ms, 5_000);

    assert_eq!(store.user_settings().network.timeout_ms, 15_000);
}

#[test]
fn test_validation() {
    let mut settings = AppSettings::default();
    settings.network.timeout_ms = 0;
    assert!(settings.validate().is_err());
}

#[test]
fn defaults_validate_and_reset_restores_them() {
    assert!(AppSettings::default().validate().is_ok());
    let mut store = SettingsStore::new(PathBuf::from("/tmp/settings.json"));
    store.user_settings_mut().network.timeout_ms = 1_000;
    store.user_settings_mut().privacy.telemetry_enabled = true;
    store.recompute_effective();
    store.reset_category("network");
    assert_eq!(store.user_settings().network.timeout_ms, 30_000);
    assert!(store.user_settings().privacy.telemetry_enabled);
    store.reset_all();
    assert!(!store.effective().privacy.telemetry_enabled);
}

#[test]
fn test_workspace_watcher_ignore_rules() {
    let watcher = WorkspaceWatcher::new("/tmp/test-workspace");
    assert!(watcher.should_ignore("/tmp/test-workspace/.packetsmith/cache.db"));
    assert!(watcher.should_ignore("/tmp/test-workspace/.git/HEAD"));
    assert!(!watcher.should_ignore("/tmp/test-workspace/collections/login.req.yaml"));
}

#[test]
fn watcher_debounces_events_and_detects_conflicts() {
    let mut watcher = WorkspaceWatcher::new("/tmp/ws");
    assert!(watcher.should_process_event(1_000));
    assert!(!watcher.should_process_event(1_100));
    assert!(watcher.should_process_event(1_150));
    assert!(!watcher.should_process_event(900));
    assert!(watcher.should_process_event(1_300));
    assert_eq!(watcher.root_path(), "/tmp/ws");
    let dirty = vec!["/tmp/ws/a.req.yaml".to_string()];
    assert!(watcher.is_conflict(&dirty, "/tmp/ws/a.req.yaml"));
    assert!(!watcher.is_conflict(&dirty, "/tmp/ws/b.req.yaml"));
}

#[test]
fn test_theme_registry() {
    let mut registry = ThemeRegistry::new();
    registry.set_mode(ThemeMode::Dark);
    assert_eq!(registry.active_palette().background, Color::hex(0x18181b));

    registry.set_mode(ThemeMode::Light);
    assert_eq!(registry.active_palette().background, Color::hex(0xffffff));
}

#[test]
fn system_theme_follows_the_system() {
    let mut registry = ThemeRegistry::new();
    assert_eq!(registry.active_palette().background, Color::hex(0x18181b));
    registry.set_system_dark(false);
    assert_eq!(registry.active_palette().background, Color::hex(0xffffff));
    assert_eq!(Color::hex(0x6366f1), Color::rgb(0x63, 0x66, 0xf1));
}

#[test]
fn test_slugify() {
    assert_eq!(slugify("Get User Profile"), "get-user-profile");
    assert_eq!(slugify("V1 / Auth / Login!"), "v1-auth-login");
    assert_eq!(slugify("---"), "resource");
}

#[test]
fn test_resource_id_roundtrip() {
    let id = ResourceId::new();
    let s = id.to_string();
    let parsed: ResourceId = s.parse().expect("Failed to parse ResourceId");
    assert_eq!(id, parsed);
}

#[test]
fn resource_ids_render_as_hyphenated_uuids() {
    let id = ResourceId::from_u128(0x67e5_5044_10b1_426f_9247_bb68_0e5f_e0c8);
    assert_eq!(id.to_string(), "67e55044-10b1-426f-9247-bb680e5fe0c8");
    assert_eq!(id.as_u128(), 0x67e5_5044_10b1_426f_9247_bb68_0e5f_e0c8);
    assert!(ResourceId::parse("not-a-uuid").is_err());
}

#[test]
fn test_folder_hierarchy_cycle_detection() {
    let f1 = ResourceId::new();
    let f2 = ResourceId::new();
    let res = validate_folder_hierarchy(&[(f1, Some(f2)), (f2, Some(f1))]);
    assert!(res.is_err());
    match res.unwrap_err() {
        WorkspaceError::CircularHierarchy(_) => {}
        other => panic!("Expected CircularHierarchy error, got {:?}", other),
    }
}

#[test]
fn acyclic_folders_are_accepted() {
    let root = ResourceId::from_u128(1);
    let child = ResourceId::from_u128(2);
    let grandchild = ResourceId::from_u128(3);
    let folders = [(root, None), (child, Some(root)), (grandchild, Some(child))];
    assert!(validate_folder_hierarchy(&folders).is_ok());
    let selfish = ResourceId::from_u128(4);
    assert!(validate_folder_hierarchy(&[(selfish, Some(selfish))]).is_err());
}

#[test]
fn destination_policy_fails_closed() {
    let allowed = vec!["api.example.com".to_string()];
    for target in [
        "http://api.example.com",
        "https://api.example.com.evil.test",
        "https://evilapi.example.com",
        "https://sub.api.example.com",
        "https://api.example.com@evil.test",
        "https://user@api.example.com",
        "https://api.example.com.",
    ] {
        assert_eq!(check_destination(target, &allowed).unwrap_err(), VaultError::DomainDenied);
    }
    for domain in ["*.example.com", "example.com/path", "example.com:443", "", "example.com\\evil"] {
        assert_eq!(canonical_domain(domain), Err(VaultError::InvalidRecord));
    }
}

#[test]
fn exact_https_hosts_are_released() {
    let allowed = vec!["api.example.com".to_string()];
    assert!(check_destination("https://api.example.com/v1/users", &allowed).is_ok());
    assert!(check_destination("https://API.example.com", &allowed).is_ok());
    assert_eq!(canonical_domain("API.Example.com"), Ok("api.example.com".to_string()));
    assert_eq!(canonical_domain(" api.example.com"), Err(VaultError::InvalidRecord));
}

#[test]
fn vault_names_and_services() {
    assert!(validate_name("api_token-1").is_ok());
    assert_eq!(validate_name("api.token"), Err(VaultError::InvalidRecord));
    assert_eq!(validate_name(""), Err(VaultError::InvalidRecord));
    assert_eq!(validate_name("has space"), Err(VaultError::InvalidRecord));
    let store = OsSecretStore::new("ws-1").expect("valid id");
    assert_eq!(store.service(), "dev.packetsmith.vault.v1.ws-1");
    assert!(OsSecretStore::new("ws/1").is_err());
}

#[test]
fn records_store_canonical_domains() {
    let rec = new_record(
        "token",
        "secret".to_string(),
        &vec!["API.Example.com".to_string()],
        vec!["prod".to_string()],
    )
    .unwrap();
    assert_eq!(rec.version, 1);
    assert_eq!(rec.allowed_domains, vec!["api.example.com".to_string()]);
    assert!(check_record(&rec).is_ok());
    assert_eq!(
        new_record("token", "s".into(), &vec!["*.example.com".to_string()], vec![]).err(),
        Some(VaultError::InvalidRecord)
    );
    assert_eq!(
        new_record("bad name", "s".into(), &vec![], vec![]).err(),
        Some(VaultError::InvalidRecord)
    );
    let stale = VaultRecord { version: 2, value: "s".into(), allowed_domains: vec![], tags: vec![] };
    assert_eq!(check_record(&stale), Err(VaultError::InvalidRecord));
}

#[test]
fn destinations_resolve_to_exact_hosts() {
    assert_eq!(destination_host_of("https://api.example.com/x?y=1"), Ok("api.example.com".to_string()));
    assert_eq!(destination_host_of("http://api.example.com"), Err(VaultError::DomainDenied));
    assert_eq!(destination_host_of("not a url"), Err(VaultError::DomainDenied));
    let allowed = vec!["api.example.com".to_string()];
    assert!(allows_host(&allowed, "api.example.com"));
    assert!(!allows_host(&allowed, "example.com"));
    assert!(!allows_host(&vec![], "api.example.com"));
}

#[test]
fn keychain_limit_counts_utf16_units() {
    assert!(fits_keychain(&"a".repeat(1200)));
    assert!(!fits_keychain(&"a".repeat(1201)));
    assert!(fits_keychain(&"\u{1F600}".repeat(600)));
    assert!(!fits_keychain(&format!("{}a", "\u{1F600}".repeat(600))));
}

#[test]
fn buttons_default_to_a_primary_medium_style() {
    let props = ButtonProps {
        label: "Send".into(),
        icon: None,
        variant: ButtonVariant::default(),
        size: ButtonSize::default(),
        disabled: false,
        loading: false,
    };
    assert_eq!(props.variant, ButtonVariant::Primary);
    assert_eq!(props.size, ButtonSize::Medium);
}
