use robezy::claim::{candidate_folder_name, claim_action_for, claim_folder, resolve_project_id,
    sanitize_display_name, ClaimAction, DirProbe};
use robezy::errors::SyncError;

#[test]
fn fresh_machine_claims_the_plain_name() {
    // connect with no project id on a machine without a `Demo` directory:
    // the first candidate is claimed by creating it
    let safe = sanitize_display_name("Demo");
    assert_eq!(safe, "Demo");
    assert_eq!(candidate_folder_name(&safe, 0), "Demo");
    let probes = vec![DirProbe::Missing];
    assert_eq!(claim_folder(&probes, "gen-id"), Ok((0, ClaimAction::Create)));
}

#[test]
fn reconnect_resolves_to_the_same_directory() {
    // the marker written at first connect makes the same folder win again
    let probes = vec![DirProbe::Marker("gen-id".to_string())];
    assert_eq!(claim_folder(&probes, "gen-id"), Ok((0, ClaimAction::Reconnect)));
}

#[test]
fn marker_text_is_trimmed_before_comparison() {
    let probe = DirProbe::Marker("  gen-id\n".to_string());
    assert_eq!(claim_action_for(&probe, "gen-id"), Some(ClaimAction::Reconnect));
}

#[test]
fn foreign_marker_skips_to_the_next_suffix() {
    let probes = vec![DirProbe::Marker("other".to_string()), DirProbe::Missing];
    assert_eq!(claim_folder(&probes, "gen-id"), Ok((1, ClaimAction::Create)));
    assert_eq!(candidate_folder_name("Demo", 1), "Demo_1");
    assert_eq!(candidate_folder_name("Demo", 12), "Demo_12");
}

#[test]
fn unmarked_directory_is_adopted() {
    let probes = vec![DirProbe::NoMarker];
    assert_eq!(claim_folder(&probes, "gen-id"), Ok((0, ClaimAction::Adopt)));
}

#[test]
fn unreadable_marker_is_treated_as_claimed() {
    let probes = vec![DirProbe::Unreadable, DirProbe::NoMarker];
    assert_eq!(claim_folder(&probes, "gen-id"), Ok((1, ClaimAction::Adopt)));
}

#[test]
fn exhausted_claim_reports_the_error() {
    let probes = vec![
        DirProbe::Marker("a".to_string()),
        DirProbe::Unreadable,
        DirProbe::Marker("b".to_string()),
    ];
    assert_eq!(claim_folder(&probes, "gen-id"), Err(SyncError::ClaimExhausted));
}

#[test]
fn display_name_is_sanitized_and_trimmed() {
    assert_eq!(sanitize_display_name("  My: Pro*ject!  "), "My Project");
    assert_eq!(sanitize_display_name("a-b_c 9"), "a-b_c 9");
}

#[test]
fn supplied_id_reconnects_through_its_marker() {
    // a caller reconnecting with the persisted id finds the marked `Demo`
    // directory at the first attempt: the plain name wins, no `Demo_1`
    let resolved = resolve_project_id(&Some("id0".to_string()));
    assert_eq!(resolved, "id0");
    let probes = vec![DirProbe::Marker("id0".to_string())];
    assert_eq!(claim_folder(&probes, &resolved), Ok((0, ClaimAction::Reconnect)));
}

#[test]
fn provided_project_id_is_kept() {
    let r = resolve_project_id(&Some("keep-me".to_string()));
    assert_eq!(r, "keep-me");
}

#[test]
fn generated_project_ids_are_fresh_full_uuids() {
    let a = resolve_project_id(&None);
    let b = resolve_project_id(&None);
    assert_eq!(a.chars().count(), 36);
    assert_eq!(b.chars().count(), 36);
    assert_ne!(a, b);
}
