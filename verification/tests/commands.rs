use std::sync::atomic::{AtomicBool, Ordering};
use std::sync::Arc;

use packetsmith::command::{
    CommandDescriptor, CommandError, CommandId, CommandRegistry, KeyBinding, Modifiers,
};

#[test]
fn test_command_registry_initialization() {
    let registry = CommandRegistry::new();
    let all = registry.list_all();
    assert!(!all.is_empty());
    assert!(registry.get_descriptor(&CommandId::new("request.send")).is_some());
}

#[test]
fn test_command_dispatch() {
    let mut registry = CommandRegistry::new();
    let executed = Arc::new(AtomicBool::new(false));
    let executed_clone = executed.clone();

    let desc = CommandDescriptor::new("test.action", "Test Action", "Test");
    registry.register_action(
        desc,
        Arc::new(move || {
            executed_clone.store(true, Ordering::SeqCst);
            Ok(())
        }),
    );

    registry.dispatch(&CommandId::new("test.action")).expect("dispatch failed");
    assert!(executed.load(Ordering::SeqCst));
}

#[test]
fn test_search_commands() {
    let registry = CommandRegistry::new();
    let results = registry.search("request");
    assert!(results.iter().any(|d| d.id.as_str() == "request.send"));
    assert!(results.iter().any(|d| d.id.as_str() == "request.cancel"));
}

#[test]
fn dispatch_reports_unknown_and_disabled_commands() {
    let mut registry = CommandRegistry::new();
    match registry.dispatch(&CommandId::new("nope")) {
        Err(CommandError::NotFound(id)) => assert_eq!(id, "nope"),
        other => panic!("unexpected {other:?}"),
    }
    let mut desc = CommandDescriptor::new("off.switch", "Off", "Test");
    desc.enabled = false;
    registry.register_descriptor(desc);
    match registry.dispatch(&CommandId::new("off.switch")) {
        Err(e @ CommandError::Disabled(_)) => {
            assert_eq!(e.message(), "Command 'off.switch' is currently disabled")
        }
        other => panic!("unexpected {other:?}"),
    }
    assert!(registry.dispatch(&CommandId::new("tab.close")).is_ok());
}

#[test]
fn action_errors_are_passed_through() {
    let mut registry = CommandRegistry::new();
    registry.register_action(
        CommandDescriptor::new("fail.now", "Fail", "Test"),
        Arc::new(|| Err(CommandError::ExecutionFailed("boom".to_string()))),
    );
    match registry.dispatch(&CommandId::new("fail.now")) {
        Err(e) => assert_eq!(e.message(), "Execution failed: boom"),
        Ok(()) => panic!("expected failure"),
    }
}

#[test]
fn palette_search_ignores_case_and_sorts_by_title() {
    let registry = CommandRegistry::new();
    let titles: Vec<String> = registry.search("VIEW").iter().map(|d| d.title.clone()).collect();
    assert_eq!(
        titles,
        vec![
            "Close Tab".to_string(),
            "Open Command Palette".to_string(),
            "Split Editor Right".to_string()
        ]
    );
}

#[test]
fn list_all_is_sorted_by_category_then_title() {
    let registry = CommandRegistry::new();
    let order: Vec<String> = registry.list_all().iter().map(|d| d.id.as_str().to_string()).collect();
    assert_eq!(
        order,
        vec![
            "request.cancel",
            "request.send",
            "tab.close",
            "workbench.command_palette",
            "pane.split_vertical",
            "workspace.open"
        ]
    );
}

#[test]
fn keybindings_lead_to_commands_and_render_per_platform() {
    let mut registry = CommandRegistry::new();
    let palette = KeyBinding::primary_shift("P");
    assert_eq!(
        registry.command_for_keybinding(&palette).map(|c| c.as_str().to_string()),
        Some("workbench.command_palette".to_string())
    );
    assert_eq!(palette.display_string(false), "Ctrl+Shift+P");
    assert_eq!(palette.display_string(true), "\u{21e7}+\u{2318}+P");
    let all = KeyBinding {
        modifiers: Modifiers { primary: false, shift: false, alt: true, ctrl: true },
        key: "K".to_string(),
    };
    assert_eq!(all.display_string(false), "Ctrl+Alt+K");
    assert_eq!(all.display_string(true), "\u{2303}+\u{2325}+K");

    registry.register_descriptor(
        CommandDescriptor::new("custom.save", "Save", "File").with_keybinding(KeyBinding::primary("w")),
    );
    assert_eq!(
        registry.command_for_keybinding(&KeyBinding::primary("w")).map(|c| c.as_str().to_string()),
        Some("custom.save".to_string())
    );
}
