use packetsmith::shell::{NotificationManager, ShutdownCoordinator, Toast, ToastLevel};
use std::cell::RefCell;
use std::rc::Rc;

#[test]
fn test_notification_manager() {
    let mut mgr = NotificationManager::new();
    mgr.info("Request Sent", Some("HTTP 200 OK".into()));
    assert_eq!(mgr.list().len(), 1);
    let id = mgr.list()[0].id;
    mgr.dismiss(&id);
    assert_eq!(mgr.list().len(), 0);
}

#[test]
fn toasts_keep_their_order_and_details() {
    let mut mgr = NotificationManager::default();
    mgr.success("Saved", None);
    mgr.error("Failed", Some("timeout".into()));
    mgr.push(Toast::new(ToastLevel::Warning, "Careful").with_message("slow").with_duration(9000));
    let list = mgr.list();
    assert_eq!(list.len(), 3);
    assert_eq!(list[0].level, ToastLevel::Success);
    assert_eq!(list[0].duration_ms, 4000);
    assert_eq!(list[1].message.as_deref(), Some("timeout"));
    assert_eq!(list[2].title, "Careful");
    assert_eq!(list[2].message.as_deref(), Some("slow"));
    assert_eq!(list[2].duration_ms, 9000);
    let keep = list[2].id;
    mgr.dismiss(&list[0].id);
    let after = mgr.list();
    assert_eq!(after.len(), 2);
    assert_eq!(after[1].id, keep);
}

#[test]
fn shutdown_runs_each_hook_once_newest_first() {
    let log: Rc<RefCell<Vec<u32>>> = Rc::new(RefCell::new(Vec::new()));
    let mut coordinator = ShutdownCoordinator::new();
    for i in 1..=3u32 {
        let log = Rc::clone(&log);
        coordinator.register_hook(Box::new(move || log.borrow_mut().push(i)));
    }
    assert!(log.borrow().is_empty());
    coordinator.shutdown();
    assert_eq!(*log.borrow(), vec![3, 2, 1]);
    coordinator.shutdown();
    assert_eq!(*log.borrow(), vec![3, 2, 1]);
}
