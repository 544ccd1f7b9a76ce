use robezy::assigner::NativeFileManager;
use robezy::errors::SyncError;
use robezy::paths::{canonical_relative, has_recognized_ext, infer_class, is_safe_relative,
    resolve_rel_path};

#[test]
fn resolves_server_script_path() {
    let p = resolve_rel_path("Workspace.Part", true, Some("Script"));
    assert_eq!(p, "Workspace/Part.server.lua");
}

#[test]
fn resolves_client_script_path() {
    let p = resolve_rel_path("StarterPlayer.Scripts.Main", true, Some("LocalScript"));
    assert_eq!(p, "StarterPlayer/Scripts/Main.client.lua");
}

#[test]
fn resolves_module_script_path() {
    assert_eq!(resolve_rel_path("Lib.Util", true, Some("ModuleScript")), "Lib/Util.lua");
    assert_eq!(resolve_rel_path("Lib.Util", true, None), "Lib/Util.lua");
    assert_eq!(resolve_rel_path("Lib.Util", true, Some("Weird")), "Lib/Util.lua");
}

#[test]
fn non_scripts_get_no_extension() {
    assert_eq!(resolve_rel_path("Workspace.Model", false, Some("Script")), "Workspace/Model");
}

#[test]
fn sanitizes_illegal_characters() {
    let p = resolve_rel_path("Work/space.Pa:rt*", true, Some("Script"));
    assert_eq!(p, "Workspace/Part.server.lua");
}

#[test]
fn keeps_spaces_hyphens_underscores() {
    let p = resolve_rel_path("My Folder.some-name_x", false, None);
    assert_eq!(p, "My Folder/some-name_x");
}

#[test]
fn assign_path_is_deterministic_across_interleaved_calls() {
    let mut fm = NativeFileManager::new("/root".to_string());
    let p1 = fm.assign_path("g1", "Workspace.Thing", true, Some("LocalScript")).unwrap();
    fm.assign_path("g2", "Other.Node", false, None).unwrap();
    fm.assign_path("g3", "Workspace.Elsewhere", true, Some("Script")).unwrap();
    let p2 = fm.assign_path("g1", "Workspace.Thing", true, Some("LocalScript")).unwrap();
    assert_eq!(p1, p2);
    assert_eq!(p1, "Workspace/Thing.client.lua");
}

#[test]
fn colliding_identifiers_share_one_path() {
    let mut fm = NativeFileManager::new("/root".to_string());
    let pa = fm.assign_path("ga", "Dup.Name", true, Some("Script")).unwrap();
    let pb = fm.assign_path("gb", "Dup.Name", true, Some("Script")).unwrap();
    assert_eq!(pa, pb);
    let pa_again = fm.assign_path("ga", "Dup.Name", true, Some("Script")).unwrap();
    assert_eq!(pa_again, pb);
}

#[test]
fn write_resolution_rejects_escaping_paths() {
    let mut fm = NativeFileManager::new("/root".to_string());
    let r = fm.write_file_guid("g", ".x", false, None);
    assert_eq!(r, Err(SyncError::AccessDenied));
}

#[test]
fn write_resolution_returns_relative_path() {
    let mut fm = NativeFileManager::new("/root".to_string());
    let r = fm.write_file_guid("g", "A.b", true, None);
    assert_eq!(r, Ok("A/b.lua".to_string()));
}

#[test]
fn safe_relative_path_checks() {
    assert!(is_safe_relative("Workspace/Part.server.lua"));
    assert!(!is_safe_relative("/etc/passwd"));
    assert!(!is_safe_relative("../outside.lua"));
    assert!(!is_safe_relative("a/../b.lua"));
    assert!(!is_safe_relative("a\\b.lua"));
    assert!(is_safe_relative("a.b/..c/d..e.lua"));
}

#[test]
fn empty_and_dotted_names_stay_relative() {
    assert_eq!(resolve_rel_path("", false, None), "");
    assert_eq!(resolve_rel_path("A..B", false, None), "A//B");
    // a name collapsing to a leading separator is caught at write time
    let mut fm = NativeFileManager::new("/root".to_string());
    assert_eq!(fm.write_file_guid("g", ".lead", false, None), Err(SyncError::AccessDenied));
}

#[test]
fn recognized_extensions() {
    assert!(has_recognized_ext("a/b.lua"));
    assert!(has_recognized_ext("attributes.json"));
    assert!(!has_recognized_ext("notes.txt"));
    assert!(!has_recognized_ext("script_lua"));
}

#[test]
fn class_inference_follows_filename_convention() {
    assert_eq!(infer_class("a/b.server.lua"), "Script");
    assert_eq!(infer_class("a/b.client.lua"), "LocalScript");
    assert_eq!(infer_class("a/b.lua"), "ModuleScript");
    assert_eq!(infer_class("a/b.json"), "ModuleScript");
}

#[test]
fn canonical_relative_strips_base_and_normalizes() {
    assert_eq!(canonical_relative("/b/x/y.server.lua", "/b"), "x/y.server.lua");
    assert_eq!(canonical_relative("C:\\proj\\x.lua", "C:\\proj"), "x.lua");
    assert_eq!(canonical_relative("/elsewhere/x.lua", "/b"), "/elsewhere/x.lua");
}
