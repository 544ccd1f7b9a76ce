use robezy::errors::SyncError;
use robezy::manager::SessionManager;
use robezy::records::{FileChange, ProjectFile, SessionIdentity};

fn identity(place_id: i64, name: &str, session_id: &str, project_id: Option<&str>) -> SessionIdentity {
    SessionIdentity {
        place_id,
        place_name: name.to_string(),
        session_id: session_id.to_string(),
        project_id: project_id.map(|p| p.to_string()),
    }
}

fn file(path: &str, content: &str) -> ProjectFile {
    ProjectFile { path: path.to_string(), content: content.to_string() }
}

#[test]
fn register_returns_resolved_id() {
    let mut mgr = SessionManager::new();
    let rid = mgr.register_session(
        identity(1, "Demo", "sess-a", Some("proj-1")),
        Vec::new(),
        "proj-1".to_string(),
        Some("/projects/Demo".to_string()),
        0,
    );
    assert_eq!(rid, "proj-1");
    let metas = mgr.get_all_sessions_meta();
    assert_eq!(metas.len(), 1);
    assert_eq!(metas[0].session_id, "sess-a");
    assert_eq!(metas[0].project_id.as_deref(), Some("proj-1"));
}

#[test]
fn duplicate_project_id_evicts_prior_session() {
    let mut mgr = SessionManager::new();
    mgr.register_session(
        identity(1, "Demo", "sess-a", Some("proj-1")),
        Vec::new(),
        "proj-1".to_string(),
        Some("/projects/Demo".to_string()),
        0,
    );
    mgr.register_session(
        identity(1, "Demo", "sess-b", Some("proj-1")),
        Vec::new(),
        "proj-1".to_string(),
        Some("/projects/Demo".to_string()),
        5,
    );
    let metas = mgr.get_all_sessions_meta();
    assert_eq!(metas.len(), 1);
    assert_eq!(metas[0].session_id, "sess-b");
    assert_eq!(metas[0].project_id.as_deref(), Some("proj-1"));
}

#[test]
fn distinct_projects_coexist() {
    let mut mgr = SessionManager::new();
    mgr.register_session(
        identity(1, "One", "sess-a", Some("proj-1")),
        Vec::new(),
        "proj-1".to_string(),
        None,
        0,
    );
    mgr.register_session(
        identity(2, "Two", "sess-b", Some("proj-2")),
        Vec::new(),
        "proj-2".to_string(),
        None,
        0,
    );
    assert_eq!(mgr.get_all_sessions_meta().len(), 2);
}

#[test]
fn staged_files_merge_ahead_of_supplied_files() {
    let mut mgr = SessionManager::new();
    mgr.stage_files("sess-a".to_string(), vec![file("a.lua", "A")]);
    mgr.stage_files("sess-a".to_string(), vec![file("b.lua", "B")]);
    mgr.register_session(
        identity(1, "Demo", "sess-a", None),
        vec![file("c.lua", "C")],
        "proj-1".to_string(),
        None,
        0,
    );
    let s = mgr.get_session("sess-a").expect("registered");
    let paths: Vec<&str> = s.files.iter().map(|f| f.path.as_str()).collect();
    assert_eq!(paths, vec!["a.lua", "b.lua", "c.lua"]);
    assert_eq!(s.files[0].content, "A");
    // staging was consumed: a later registration sees nothing staged
    let mut mgr2 = SessionManager::new();
    mgr2.register_session(
        identity(1, "Demo", "sess-a", None),
        vec![file("c.lua", "C")],
        "proj-1".to_string(),
        None,
        0,
    );
    assert_eq!(mgr2.get_session("sess-a").unwrap().files.len(), 1);
}

#[test]
fn heartbeat_tracks_known_sessions() {
    let mut mgr = SessionManager::new();
    assert!(!mgr.refresh_session_ttl("sess-a", 10));
    mgr.register_session(
        identity(1, "Demo", "sess-a", Some("p")),
        Vec::new(),
        "p".to_string(),
        None,
        0,
    );
    assert!(mgr.refresh_session_ttl("sess-a", 10));
}

#[test]
fn stale_sessions_are_swept() {
    let mut mgr = SessionManager::new();
    mgr.register_session(
        identity(1, "Demo", "sess-a", Some("p")),
        Vec::new(),
        "p".to_string(),
        None,
        0,
    );
    // exactly at the timeout the session survives
    mgr.cleanup_stale_sessions(30000);
    assert_eq!(mgr.get_all_sessions_meta().len(), 1);
    // past the timeout it is evicted
    mgr.cleanup_stale_sessions(30001);
    assert!(mgr.get_all_sessions_meta().is_empty());
}

#[test]
fn heartbeat_defers_staleness() {
    let mut mgr = SessionManager::new();
    mgr.register_session(
        identity(1, "Demo", "sess-a", Some("p")),
        Vec::new(),
        "p".to_string(),
        None,
        0,
    );
    mgr.refresh_session_ttl("sess-a", 25000);
    mgr.cleanup_stale_sessions(40000);
    assert_eq!(mgr.get_all_sessions_meta().len(), 1);
}

#[test]
fn unregister_removes_session() {
    let mut mgr = SessionManager::new();
    mgr.register_session(
        identity(1, "Demo", "sess-a", Some("p")),
        Vec::new(),
        "p".to_string(),
        None,
        0,
    );
    mgr.unregister_session("sess-a");
    assert!(mgr.get_session("sess-a").is_none());
    assert!(mgr.get_all_sessions_meta().is_empty());
}

#[test]
fn bind_folder_requires_known_session() {
    let mut mgr = SessionManager::new();
    assert_eq!(mgr.bind_folder("nope", "/p".to_string()), Err(SyncError::SessionNotFound));
    mgr.register_session(
        identity(1, "Demo", "sess-a", Some("p")),
        Vec::new(),
        "p".to_string(),
        None,
        0,
    );
    assert_eq!(mgr.bind_folder("sess-a", "/p".to_string()), Ok(()));
    assert_eq!(mgr.get_session("sess-a").unwrap().bound_folder.as_deref(), Some("/p"));
    assert!(mgr.get_file_manager("sess-a").is_some());
}

#[test]
fn proxy_write_validates_session_binding_and_path() {
    let mut mgr = SessionManager::new();
    assert_eq!(mgr.proxy_write("nope", "a.lua"), Err(SyncError::SessionNotFound));
    mgr.register_session(
        identity(1, "Demo", "sess-a", Some("p")),
        Vec::new(),
        "p".to_string(),
        None,
        0,
    );
    assert_eq!(mgr.proxy_write("sess-a", "a.lua"), Err(SyncError::NotBound));
    mgr.bind_folder("sess-a", "/proj".to_string()).unwrap();
    assert_eq!(mgr.proxy_write("sess-a", "../a.lua"), Err(SyncError::AccessDenied));
    assert_eq!(mgr.proxy_write("sess-a", "sub/a.lua"), Ok("/proj/sub/a.lua".to_string()));
}

#[test]
fn poll_of_unknown_session_is_empty_not_fatal() {
    let mut mgr = SessionManager::new();
    assert!(mgr.drain_outbound("never-registered").is_empty());
}

#[test]
fn sync_for_unbound_session_is_rejected() {
    let mut mgr = SessionManager::new();
    mgr.register_session(
        identity(1, "Demo", "sess-a", Some("p")),
        Vec::new(),
        "p".to_string(),
        None,
        0,
    );
    let change = FileChange {
        change_type: "write".to_string(),
        path: "Workspace.Part".to_string(),
        content: Some("X".to_string()),
        is_script: true,
        guid: None,
        class_name: Some("Script".to_string()),
    };
    let r = mgr.apply_inbound_changes("sess-a", vec![change], 0);
    assert_eq!(r.err(), Some(SyncError::SessionNotFound));
}
