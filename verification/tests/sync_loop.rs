use robezy::manager::SessionManager;
use robezy::records::{FileChange, SessionIdentity};

fn register_bound(mgr: &mut SessionManager, session_id: &str, folder: &str, now: u64) {
    mgr.register_session(
        SessionIdentity {
            place_id: 7,
            place_name: "Demo".to_string(),
            session_id: session_id.to_string(),
            project_id: Some("proj".to_string()),
        },
        Vec::new(),
        "proj".to_string(),
        Some(folder.to_string()),
        now,
    );
}

fn write_change(path: &str, content: &str, class: &str) -> FileChange {
    FileChange {
        change_type: "write".to_string(),
        path: path.to_string(),
        content: Some(content.to_string()),
        is_script: true,
        guid: Some("guid-1".to_string()),
        class_name: Some(class.to_string()),
    }
}

#[test]
fn inbound_write_resolves_path_and_content() {
    let mut mgr = SessionManager::new();
    register_bound(&mut mgr, "sess-1", "/proj", 0);
    let cmds = mgr
        .apply_inbound_changes("sess-1", vec![write_change("Workspace.Part", "X", "Script")], 1000)
        .unwrap();
    assert_eq!(cmds.len(), 1);
    assert_eq!(cmds[0].relative_path, "Workspace/Part.server.lua");
    assert_eq!(cmds[0].content, "X");
}

#[test]
fn own_write_is_suppressed_within_the_ignore_window() {
    let mut mgr = SessionManager::new();
    register_bound(&mut mgr, "sess-1", "/proj", 0);
    mgr.apply_inbound_changes("sess-1", vec![write_change("Workspace.Part", "X", "Script")], 1000)
        .unwrap();
    // the watcher observes the engine's own write before the entry expires
    let queued = mgr.handle_watch_event(
        "sess-1",
        "/proj/Workspace/Part.server.lua",
        "X".to_string(),
        1500,
    );
    assert!(!queued);
    assert!(mgr.drain_outbound("sess-1").is_empty());
}

#[test]
fn external_edit_after_expiry_is_delivered() {
    let mut mgr = SessionManager::new();
    register_bound(&mut mgr, "sess-1", "/proj", 0);
    mgr.apply_inbound_changes("sess-1", vec![write_change("Workspace.Part", "X", "Script")], 1000)
        .unwrap();
    // entry expires at 3000; a later event must be delivered
    let queued = mgr.handle_watch_event(
        "sess-1",
        "/proj/Workspace/Part.server.lua",
        "Y".to_string(),
        4000,
    );
    assert!(queued);
    let out = mgr.drain_outbound("sess-1");
    assert_eq!(out.len(), 1);
    assert_eq!(out[0].path, "Workspace/Part.server.lua");
    assert_eq!(out[0].content.as_deref(), Some("Y"));
    assert_eq!(out[0].class_name.as_deref(), Some("Script"));
    assert_eq!(out[0].change_type, "write");
    assert!(out[0].is_script);
}

#[test]
fn successive_changes_to_one_path_coalesce() {
    let mut mgr = SessionManager::new();
    register_bound(&mut mgr, "sess-1", "/proj", 0);
    assert!(mgr.handle_watch_event("sess-1", "/proj/a.lua", "one".to_string(), 0));
    assert!(mgr.handle_watch_event("sess-1", "/proj/b.lua", "other".to_string(), 1));
    assert!(mgr.handle_watch_event("sess-1", "/proj/a.lua", "two".to_string(), 2));
    let out = mgr.drain_outbound("sess-1");
    let for_a: Vec<&FileChange> = out.iter().filter(|c| c.path == "a.lua").collect();
    assert_eq!(for_a.len(), 1);
    assert_eq!(for_a[0].content.as_deref(), Some("two"));
    assert_eq!(out.len(), 2);
}

#[test]
fn drain_empties_the_queue() {
    let mut mgr = SessionManager::new();
    register_bound(&mut mgr, "sess-1", "/proj", 0);
    mgr.handle_watch_event("sess-1", "/proj/a.lua", "one".to_string(), 0);
    assert_eq!(mgr.drain_outbound("sess-1").len(), 1);
    assert!(mgr.drain_outbound("sess-1").is_empty());
}

#[test]
fn unrecognized_extensions_are_ignored_by_the_watcher() {
    let mut mgr = SessionManager::new();
    register_bound(&mut mgr, "sess-1", "/proj", 0);
    assert!(!mgr.handle_watch_event("sess-1", "/proj/readme.txt", "hi".to_string(), 0));
    assert!(mgr.drain_outbound("sess-1").is_empty());
}

#[test]
fn watcher_infers_class_from_filename() {
    let mut mgr = SessionManager::new();
    register_bound(&mut mgr, "sess-1", "/proj", 0);
    mgr.handle_watch_event("sess-1", "/proj/m.client.lua", "c".to_string(), 0);
    let out = mgr.drain_outbound("sess-1");
    assert_eq!(out[0].class_name.as_deref(), Some("LocalScript"));
    assert!(out[0].guid.is_none());
}

#[test]
fn delete_and_contentless_changes_are_skipped() {
    let mut mgr = SessionManager::new();
    register_bound(&mut mgr, "sess-1", "/proj", 0);
    let delete = FileChange {
        change_type: "delete".to_string(),
        path: "Workspace.Gone".to_string(),
        content: Some("ignored".to_string()),
        is_script: true,
        guid: None,
        class_name: None,
    };
    let empty = FileChange {
        change_type: "write".to_string(),
        path: "Workspace.Empty".to_string(),
        content: None,
        is_script: true,
        guid: None,
        class_name: None,
    };
    let keep = write_change("Workspace.Kept", "K", "ModuleScript");
    let cmds = mgr.apply_inbound_changes("sess-1", vec![delete, empty, keep], 0).unwrap();
    assert_eq!(cmds.len(), 1);
    assert_eq!(cmds[0].relative_path, "Workspace/Kept.lua");
}

#[test]
fn escaping_inbound_change_is_isolated_from_the_batch() {
    let mut mgr = SessionManager::new();
    register_bound(&mut mgr, "sess-1", "/proj", 0);
    let bad = FileChange {
        change_type: "write".to_string(),
        path: ".hidden".to_string(),
        content: Some("nope".to_string()),
        is_script: false,
        guid: None,
        class_name: None,
    };
    let good = write_change("Workspace.Fine", "ok", "Script");
    let cmds = mgr.apply_inbound_changes("sess-1", vec![bad, good], 0).unwrap();
    assert_eq!(cmds.len(), 1);
    assert_eq!(cmds[0].relative_path, "Workspace/Fine.server.lua");
}
