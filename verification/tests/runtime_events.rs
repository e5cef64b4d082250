use komga_core::runtime_events::{
    MAX_RUNTIME_SSE_EVENTS, RuntimeSseEvent, RuntimeSseEventLog, RuntimeSseEventStore,
};

fn changed(id: &str) -> RuntimeSseEvent {
    RuntimeSseEvent::LibraryChanged { library_id: id.to_string() }
}

#[test]
fn register_numbers_events_from_one() {
    let mut store = RuntimeSseEventStore::default();
    assert_eq!(store.current_cursor(), 0);
    assert_eq!(store.register(changed("a")), 1);
    assert_eq!(store.register(changed("b")), 2);
    assert_eq!(store.current_cursor(), 2);
}

#[test]
fn pending_events_follow_the_cursor() {
    let mut store = RuntimeSseEventStore::default();
    store.register(changed("a"));
    store.register(changed("b"));
    let batch = store.pending_events(1, "user", false);
    assert_eq!(batch.current_cursor, 2);
    assert_eq!(batch.events.len(), 1);
    assert_eq!(batch.events[0].id, 2);
    assert_eq!(batch.events[0].event, changed("b"));
}

#[test]
fn pending_events_hide_what_the_user_may_not_see() {
    let mut store = RuntimeSseEventStore::default();
    store.register(changed("a"));
    store.register(RuntimeSseEvent::SessionExpired { user_id: "other".to_string() });
    store.register(RuntimeSseEvent::ReadProgressChanged {
        book_id: "b".to_string(),
        user_id: "user".to_string(),
    });
    store.register(RuntimeSseEvent::BookImported {
        book_id: None,
        source_file: "/import/a.cbz".to_string(),
        success: false,
        message: Some("ERR".to_string()),
    });
    let user = store.pending_events(0, "user", false);
    let ids: Vec<u64> = user.events.iter().map(|r| r.id).collect();
    assert_eq!(ids, vec![1, 3]);
    let admin = store.pending_events(0, "admin", true);
    let admin_ids: Vec<u64> = admin.events.iter().map(|r| r.id).collect();
    assert_eq!(admin_ids, vec![1, 4]);
    assert_eq!(admin.current_cursor, 4);
}

#[test]
fn event_audiences() {
    assert!(!changed("a").admin_only());
    assert_eq!(changed("a").user_id_only(), None);
    let imported = RuntimeSseEvent::BookImported {
        book_id: Some("b".to_string()),
        source_file: "f".to_string(),
        success: true,
        message: None,
    };
    assert!(imported.admin_only());
    let progress = RuntimeSseEvent::ReadProgressChanged {
        book_id: "b".to_string(),
        user_id: "u".to_string(),
    };
    assert!(!progress.admin_only());
    assert_eq!(progress.user_id_only(), Some("u"));
}

#[test]
fn the_log_keeps_the_latest_events() {
    let mut store = RuntimeSseEventStore::default();
    for i in 0..(MAX_RUNTIME_SSE_EVENTS + 5) {
        store.register(changed(&i.to_string()));
    }
    let batch = store.pending_events(0, "admin", true);
    assert_eq!(batch.events.len(), MAX_RUNTIME_SSE_EVENTS);
    assert_eq!(batch.events[0].id, 6);
}

#[test]
fn the_log_keeps_each_latest_event_under_its_id() {
    let mut store = RuntimeSseEventStore::default();
    let n = MAX_RUNTIME_SSE_EVENTS + 5;
    for i in 1..=n {
        store.register(changed(&i.to_string()));
    }
    let batch = store.pending_events(0, "admin", true);
    assert_eq!(batch.events.len(), MAX_RUNTIME_SSE_EVENTS);
    for (j, record) in batch.events.iter().enumerate() {
        let id = (n - MAX_RUNTIME_SSE_EVENTS + 1 + j) as u64;
        assert_eq!(record.id, id);
        assert_eq!(record.event, changed(&id.to_string()));
    }
}
