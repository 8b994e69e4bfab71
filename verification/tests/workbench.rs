use packetsmith::domain::{HttpRequestPayload, ProtocolRequest, RequestDocument, ResourceId};
use packetsmith::storage::TabStateRecord;
use packetsmith::ui::SplitOrientation;
use packetsmith::workbench::{CloseTabError, SplitTree, WorkbenchState, DEFAULT_PANE_ID};

fn make_test_request(name: &str) -> RequestDocument {
    RequestDocument::new(
        name,
        ProtocolRequest::Http(HttpRequestPayload {
            method: "GET".to_string(),
            url: format!("https://api.test.com/{}", name),
        }),
    )
}

#[test]
fn test_workbench_tabs_lifecycle() {
    let mut wb = WorkbenchState::new();
    let r1 = make_test_request("r1");
    let r2 = make_test_request("r2");

    wb.open_request(r1.copy());
    wb.open_request(r2.copy());

    let pane = wb.active_pane().unwrap();
    assert_eq!(pane.tabs.len(), 2);
    assert_eq!(pane.active_tab_index, 1);

    wb.pin_tab(DEFAULT_PANE_ID, 0);
    assert!(wb.active_pane().unwrap().tabs[0].is_pinned);

    wb.reorder_tabs(DEFAULT_PANE_ID, 0, 1);
    assert_eq!(wb.active_pane().unwrap().tabs[0].request.id, r2.id);

    let closed = wb.close_tab(DEFAULT_PANE_ID, 0).expect("close tab");
    assert_eq!(closed.request.id, r2.id);
    assert_eq!(wb.active_pane().unwrap().tabs.len(), 1);

    let reopened = wb.reopen_closed_tab().expect("reopened");
    assert_eq!(reopened.request.id, r2.id);
    assert_eq!(wb.active_pane().unwrap().tabs.len(), 2);
}

#[test]
fn test_workbench_dirty_protection() {
    let mut wb = WorkbenchState::new();
    let r1 = make_test_request("dirty_test");
    wb.open_request(r1);

    wb.active_pane_mut().unwrap().tabs[0].mark_dirty();

    let res = wb.close_tab(DEFAULT_PANE_ID, 0);
    assert!(res.is_err());
    match res.unwrap_err() {
        CloseTabError::UnsavedChanges(_) => {}
        other => panic!("Expected UnsavedChanges, got {:?}", other),
    }

    let force_closed = wb.force_close_tab(DEFAULT_PANE_ID, 0);
    assert!(force_closed.is_some());
    assert_eq!(wb.active_pane().unwrap().tabs.len(), 0);
}

#[test]
fn test_workbench_split_panes() {
    let mut wb = WorkbenchState::new();
    let r1 = make_test_request("pane1_req");
    wb.open_request(r1);

    let new_pane = wb
        .split_pane(DEFAULT_PANE_ID, SplitOrientation::Vertical, 0.5f32.to_bits())
        .expect("split");
    assert_eq!(wb.panes.len(), 2);

    let moved = wb.move_tab_to_pane(DEFAULT_PANE_ID, 0, &new_pane);
    assert!(moved);
    assert_eq!(wb.get_pane(DEFAULT_PANE_ID).unwrap().tabs.len(), 0);
    assert_eq!(wb.get_pane(&new_pane).unwrap().tabs.len(), 1);

    wb.close_pane(&new_pane);
    assert_eq!(wb.panes.len(), 1);
    assert_eq!(wb.active_pane().unwrap().tabs.len(), 1);
}

#[test]
fn reopening_a_closed_tab_returns_it_to_the_end_of_its_pane() {
    let mut wb = WorkbenchState::new();
    let a = make_test_request("a");
    let b = make_test_request("b");
    let c = make_test_request("c");
    wb.open_request(a.copy());
    wb.open_request(b.copy());
    wb.open_request(c.copy());
    let closed = wb.close_tab(DEFAULT_PANE_ID, 0).unwrap();
    assert_eq!(closed.request.id, a.id);
    assert_eq!(wb.active_pane().unwrap().active_tab_index, 1);
    let reopened_id = wb.reopen_closed_tab().unwrap().request.id;
    assert_eq!(reopened_id, a.id);
    let pane = wb.active_pane().unwrap();
    assert_eq!(pane.tabs[2].request.id, a.id);
    assert_eq!(pane.active_tab_index, 2);
    assert!(wb.reopen_closed_tab().is_none());
}

#[test]
fn opening_an_open_request_selects_its_tab() {
    let mut wb = WorkbenchState::new();
    let a = make_test_request("a");
    let b = make_test_request("b");
    assert_eq!(wb.open_request(a.copy()), 0);
    assert_eq!(wb.open_request(b.copy()), 1);
    assert_eq!(wb.open_request(a.copy()), 0);
    assert_eq!(wb.active_pane().unwrap().tabs.len(), 2);
    assert_eq!(wb.active_pane().unwrap().active_tab_index, 0);
}

#[test]
fn errors_name_the_pane_or_index() {
    let mut wb = WorkbenchState::new();
    match wb.close_tab("nope", 0) {
        Err(e @ CloseTabError::PaneNotFound(_)) => assert_eq!(e.message(), "Pane not found: nope"),
        other => panic!("unexpected {:?}", other),
    }
    match wb.close_tab(DEFAULT_PANE_ID, 3) {
        Err(e @ CloseTabError::IndexOutOfBounds(3)) => {
            assert_eq!(e.message(), "Tab index out of bounds: 3")
        }
        other => panic!("unexpected {:?}", other),
    }
    assert!(wb.split_pane("nope", SplitOrientation::Horizontal, 0.5f32.to_bits()).is_err());
    assert!(!wb.close_pane(DEFAULT_PANE_ID));
    assert!(!wb.set_active_pane("nope"));
}

#[test]
fn autosave_lets_dirty_tabs_close() {
    let mut wb = WorkbenchState::new();
    wb.open_request(make_test_request("x"));
    wb.active_pane_mut().unwrap().tabs[0].mark_dirty();
    wb.autosave_enabled = true;
    assert!(wb.close_tab(DEFAULT_PANE_ID, 0).is_ok());
}

#[test]
fn history_keeps_the_newest_fifty_closed_tabs() {
    let mut wb = WorkbenchState::new();
    for k in 0..55 {
        wb.open_request(make_test_request(&format!("r{}", k)));
        wb.close_tab(DEFAULT_PANE_ID, 0).unwrap();
    }
    assert_eq!(wb.closed_tabs.len(), 50);
    assert_eq!(wb.closed_tabs[0].tab_state.request.name, "r5");
}

#[test]
fn duplicate_opens_a_copy_after_the_original() {
    let mut wb = WorkbenchState::new();
    let a = make_test_request("Users");
    wb.open_request(a.copy());
    let copy_id = wb.duplicate_tab(DEFAULT_PANE_ID, 0).unwrap();
    assert_ne!(copy_id, a.id);
    let pane = wb.active_pane().unwrap();
    assert_eq!(pane.tabs.len(), 2);
    assert_eq!(pane.tabs[1].request.name, "Users (Copy)");
    assert_eq!(pane.tabs[1].request.id, copy_id);
    assert_eq!(pane.active_tab_index, 1);
    assert!(wb.duplicate_tab(DEFAULT_PANE_ID, 5).is_none());
}

#[test]
fn split_tree_records_the_split_and_closing_restores_it() {
    let mut wb = WorkbenchState::new();
    let new_pane = wb
        .split_pane(DEFAULT_PANE_ID, SplitOrientation::Horizontal, 0.25f32.to_bits())
        .unwrap();
    assert!(new_pane.starts_with("pane-"));
    assert_eq!(wb.active_pane_id, new_pane);
    match &wb.split_tree {
        SplitTree::Split { first, second, ratio, .. } => {
            assert_eq!(f32::from_bits(*ratio), 0.25);
            assert!(matches!(&**first, SplitTree::Leaf { pane_id } if pane_id == DEFAULT_PANE_ID));
            assert!(matches!(&**second, SplitTree::Leaf { pane_id } if *pane_id == new_pane));
        }
        other => panic!("unexpected {:?}", other),
    }
    assert!(wb.close_pane(&new_pane));
    assert_eq!(wb.active_pane_id, DEFAULT_PANE_ID);
    assert!(matches!(&wb.split_tree, SplitTree::Leaf { pane_id } if pane_id == DEFAULT_PANE_ID));
}

#[test]
fn tab_records_round_trip_through_restore() {
    let mut wb = WorkbenchState::new();
    let a = make_test_request("a");
    let b = make_test_request("b");
    wb.open_request(a.copy());
    wb.open_request(b.copy());
    wb.pin_tab(DEFAULT_PANE_ID, 1);
    let records = wb.to_tab_state_records("ws-1");
    assert_eq!(records.len(), 2);
    assert_eq!(records[1].tab_order, 1);
    assert!(records[1].is_pinned);
    assert_eq!(records[0].workspace_id, "ws-1");
    assert_eq!(records[0].pane_id.as_deref(), Some(DEFAULT_PANE_ID));

    let mut restored = WorkbenchState::new();
    let mut extra = records.clone();
    extra.push(TabStateRecord {
        id: "t".into(),
        workspace_id: "ws-1".into(),
        resource_id: ResourceId::new(),
        tab_order: 2,
        is_pinned: false,
        pane_id: None,
    });
    extra.push(TabStateRecord {
        id: "u".into(),
        workspace_id: "ws-1".into(),
        resource_id: a.id,
        tab_order: 0,
        is_pinned: false,
        pane_id: Some("pane-side".into()),
    });
    restored.restore_from_records(&extra, &[a.copy(), b.copy()]);
    let main = restored.get_pane(DEFAULT_PANE_ID).unwrap();
    assert_eq!(main.tabs.len(), 2);
    assert_eq!(main.tabs[0].request.id, a.id);
    assert!(main.tabs[1].is_pinned);
    assert_eq!(restored.get_pane("pane-side").unwrap().tabs.len(), 1);
}
