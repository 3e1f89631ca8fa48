//! Prepared state.

use crossbow_switch::sorted::SortedMap;
use crossbow_switch::state::SavedState;
use crossbow_switch::{
    diff_roots, load_prepared_state, state_file_path, state_to_labeled_roots, PreparedState,
    StateStatus,
};

fn map(entries: &[(&str, &str)]) -> SortedMap<String> {
    SortedMap::from_entries(
        entries.iter().map(|(key, value)| ((*key).to_owned(), (*value).to_owned())).collect(),
    )
}

fn simple_state() -> PreparedState {
    PreparedState {
        frozen_flake_ref: "/nix/store/abc#testhost-crossbow".into(),
        roots: map(&[("system-toplevel", "/nix/store/root1")]),
        fingerprints: map(&[("system-toplevel", "fp1")]),
        prepared_at: Some("2026-01-01T00:00:00Z".into()),
    }
}

#[test]
fn save_and_load_round_trips() {
    let state = simple_state();
    let loaded = load_prepared_state(
        "state.json",
        SavedState::Prepared(state.clone()),
        "/nix/store/abc#testhost-crossbow",
    )
    .unwrap();

    match loaded {
        StateStatus::Current(loaded_state) => {
            assert_eq!(loaded_state.frozen_flake_ref, state.frozen_flake_ref);
            assert_eq!(loaded_state.roots, state.roots);
            assert_eq!(loaded_state.fingerprints, state.fingerprints);
            assert_eq!(loaded_state.prepared_at, state.prepared_at);
        }
        other => panic!("expected Current, got {other:?}"),
    }
}

#[test]
fn load_returns_missing_when_file_absent() {
    let status = load_prepared_state(
        "nonexistent.json",
        SavedState::Absent,
        "/nix/store/abc#host-crossbow",
    )
    .unwrap();
    assert_eq!(status, StateStatus::Missing);
}

#[test]
fn load_returns_stale_when_ref_differs_and_deletes_file() {
    let status = load_prepared_state(
        "state.json",
        SavedState::Prepared(simple_state()),
        "/nix/store/new#host-crossbow",
    )
    .unwrap();

    match status {
        StateStatus::Stale { old_flake_ref, new_flake_ref } => {
            assert_eq!(old_flake_ref, "/nix/store/abc#testhost-crossbow");
            assert_eq!(new_flake_ref, "/nix/store/new#host-crossbow");
        }
        other => panic!("expected Stale, got {other:?}"),
    }
}

#[test]
fn state_to_labeled_roots_converts_correctly() {
    let state = PreparedState {
        frozen_flake_ref: "ref".into(),
        roots: map(&[
            ("system-toplevel", "/nix/store/path1"),
            ("identity-cli", "/nix/store/path2"),
        ]),
        fingerprints: map(&[("system-toplevel", "fp1")]),
        prepared_at: None,
    };

    let labeled = state_to_labeled_roots(&state);
    assert_eq!(labeled.len(), 2);
    assert_eq!(labeled[0].label, "identity-cli");
    assert_eq!(labeled[0].path, "/nix/store/path2");
    assert_eq!(labeled[0].fingerprint, "");
    assert_eq!(labeled[1].label, "system-toplevel");
    assert_eq!(labeled[1].path, "/nix/store/path1");
    assert_eq!(labeled[1].fingerprint, "fp1");
}

#[test]
fn state_file_path_joins_host_name() {
    assert_eq!(
        state_file_path("/tmp/canix", "thething"),
        "/tmp/canix/crossbow-prepared-thething.json"
    );
}

#[test]
fn state_file_path_adds_a_separator_only_where_one_is_needed() {
    for base in ["", "/", "/tmp", "/tmp/", "relative"] {
        let expected = std::path::Path::new(base).join("crossbow-prepared-host.json");
        assert_eq!(state_file_path(base, "host"), expected.to_str().unwrap());
    }
}

#[test]
fn unreadable_and_malformed_states_are_errors() {
    let unreadable = SavedState::Unreadable { source: "denied".to_owned() };
    let error = load_prepared_state("/state.json", unreadable, "ref").unwrap_err();
    assert_eq!(error.to_string(), "crossbow: failed to read `/state.json`");

    let malformed = SavedState::Malformed { source: "expected value".to_owned() };
    let error = load_prepared_state("/state.json", malformed, "ref").unwrap_err();
    assert_eq!(error.to_string(), "crossbow: embedded metadata JSON is invalid");
}

#[test]
fn prepared_roots_compared_with_themselves_are_unchanged() {
    let roots = state_to_labeled_roots(&simple_state());
    let diff = diff_roots(&roots, &roots);
    assert_eq!(diff.unchanged, roots);
    assert!(diff.added.is_empty() && diff.changed.is_empty() && diff.removed.is_empty());
}
