//! Requirements artifacts and their labeled roots.

use crossbow_switch::requirements::{ArtifactFiles, FileRead};
use crossbow_switch::{diff_roots, label_roots, LabeledRoot, RequirementsArtifact};

fn content(text: &str) -> FileRead {
    FileRead::Content(text.to_owned())
}

fn absent() -> FileRead {
    FileRead::Absent { source: "No such file or directory".to_owned() }
}

fn files(roots: &str, drvs: &str) -> ArtifactFiles {
    ArtifactFiles {
        roots: content(roots),
        drvs: content(drvs),
        fingerprint: absent(),
        root_labels: absent(),
        root_fingerprints: absent(),
    }
}

#[test]
fn reads_roots_drvs_and_fingerprint() {
    let mut given = files(
        "/nix/store/aaa-toplevel\n/nix/store/bbb-etc\n",
        "/nix/store/aaa.drv\n/nix/store/bbb.drv\n",
    );
    given.fingerprint = content("sha256-abc123\n");

    let artifact = RequirementsArtifact::read("/artifact", given).unwrap();
    assert_eq!(artifact.roots, vec!["/nix/store/aaa-toplevel", "/nix/store/bbb-etc"]);
    assert_eq!(artifact.drvs, vec!["/nix/store/aaa.drv", "/nix/store/bbb.drv"]);
    assert_eq!(artifact.fingerprint.as_deref(), Some("sha256-abc123"));
}

#[test]
fn tolerates_missing_fingerprint() {
    let given = files("/nix/store/aaa\n", "/nix/store/aaa.drv\n");

    let artifact = RequirementsArtifact::read("/artifact", given).unwrap();
    assert_eq!(artifact.roots, vec!["/nix/store/aaa"]);
    assert!(artifact.fingerprint.is_none());
}

#[test]
fn skips_blank_lines_and_whitespace() {
    let given = files("\n/nix/store/one\n  \n/nix/store/two  \n", "/nix/store/one.drv\n");

    let artifact = RequirementsArtifact::read("/artifact", given).unwrap();
    assert_eq!(artifact.roots, vec!["/nix/store/one", "/nix/store/two"]);
}

#[test]
fn empty_artifact_has_empty_roots_and_drvs() {
    let artifact = RequirementsArtifact::read("/artifact", files("", "")).unwrap();
    assert!(artifact.roots.is_empty());
    assert!(artifact.drvs.is_empty());
}

#[test]
fn reads_root_labels_and_fingerprints() {
    let mut given = files(
        "/nix/store/aaa\n/nix/store/bbb\n",
        "/nix/store/aaa.drv\n/nix/store/bbb.drv\n",
    );
    given.root_labels = content("system-toplevel\nidentity-cli\n");
    given.root_fingerprints = content("sha256-one\nsha256-two\n");

    let artifact = RequirementsArtifact::read("/artifact", given).unwrap();
    assert_eq!(artifact.root_labels, vec!["system-toplevel", "identity-cli"]);
    assert_eq!(artifact.root_fingerprints, vec!["sha256-one", "sha256-two"]);
}

#[test]
fn tolerates_missing_labels_and_fingerprints() {
    let given = files("/nix/store/aaa\n", "/nix/store/aaa.drv\n");

    let artifact = RequirementsArtifact::read("/artifact", given).unwrap();
    assert!(artifact.root_labels.is_empty());
    assert!(artifact.root_fingerprints.is_empty());
}

#[test]
fn a_missing_roots_file_is_an_error() {
    let mut given = files("", "");
    given.roots = absent();
    let error = RequirementsArtifact::read("/artifact", given).unwrap_err();
    assert_eq!(error.to_string(), "crossbow: failed to read `/artifact/roots`");

    let mut given = files("", "");
    given.drvs = absent();
    given.root_labels = FileRead::Failed { source: "denied".to_owned() };
    let error = RequirementsArtifact::read("/artifact/", given).unwrap_err();
    assert_eq!(error.to_string(), "crossbow: failed to read `/artifact/drvs`");
}

#[test]
fn an_unreadable_optional_file_is_an_error() {
    for (at, name) in ["fingerprint", "root-labels", "root-fingerprints"].iter().enumerate() {
        let mut given = files("", "");
        let failed = FileRead::Failed { source: "denied".to_owned() };
        match at {
            0 => given.fingerprint = failed,
            1 => given.root_labels = failed,
            _ => given.root_fingerprints = failed,
        }
        let error = RequirementsArtifact::read("dir", given).unwrap_err();
        assert_eq!(error.to_string(), format!("crossbow: failed to read `dir/{name}`"));
    }
}

// --- label_roots tests ---

#[test]
fn label_roots_pairs_labels_when_available() {
    let artifact = RequirementsArtifact {
        roots: vec!["/nix/store/aaa".into(), "/nix/store/bbb".into()],
        drvs: vec![],
        fingerprint: None,
        root_labels: vec!["system-toplevel".into(), "identity-cli".into()],
        root_fingerprints: vec!["fp1".into(), "fp2".into()],
    };
    let labeled = label_roots(&artifact);
    assert_eq!(labeled.len(), 2);
    assert_eq!(labeled[0].label, "system-toplevel");
    assert_eq!(labeled[0].path, "/nix/store/aaa");
    assert_eq!(labeled[0].fingerprint, "fp1");
    assert_eq!(labeled[1].label, "identity-cli");
    assert_eq!(labeled[1].path, "/nix/store/bbb");
    assert_eq!(labeled[1].fingerprint, "fp2");
}

#[test]
fn label_roots_generates_synthetic_labels_when_missing() {
    let artifact = RequirementsArtifact {
        roots: vec!["/nix/store/aaa".into(), "/nix/store/bbb".into()],
        drvs: vec![],
        fingerprint: None,
        root_labels: vec![],
        root_fingerprints: vec![],
    };
    let labeled = label_roots(&artifact);
    assert_eq!(labeled.len(), 2);
    assert_eq!(labeled[0].label, "root-0");
    assert_eq!(labeled[1].label, "root-1");
    assert!(labeled[0].fingerprint.is_empty());
    assert!(labeled[1].fingerprint.is_empty());
}

// --- diff_roots tests ---

fn root(label: &str, path: &str, fp: &str) -> LabeledRoot {
    LabeledRoot {
        label: label.into(),
        path: path.into(),
        fingerprint: fp.into(),
    }
}

#[test]
fn diff_reports_added_when_new_label_appears() {
    let old = vec![];
    let new = vec![root("system-toplevel", "/nix/store/aaa", "fp1")];

    let diff = diff_roots(&old, &new);
    assert_eq!(diff.added.len(), 1);
    assert_eq!(diff.added[0].label, "system-toplevel");
    assert!(diff.changed.is_empty());
    assert!(diff.unchanged.is_empty());
    assert!(diff.removed.is_empty());
}

#[test]
fn diff_reports_changed_when_fingerprint_differs() {
    let old = vec![root("system-toplevel", "/nix/store/old", "fp-old")];
    let new = vec![root("system-toplevel", "/nix/store/new", "fp-new")];

    let diff = diff_roots(&old, &new);
    assert!(diff.added.is_empty());
    assert_eq!(diff.changed.len(), 1);
    assert_eq!(diff.changed[0].label, "system-toplevel");
    assert!(diff.unchanged.is_empty());
    assert!(diff.removed.is_empty());
}

#[test]
fn diff_reports_unchanged_when_fingerprint_matches() {
    let old = vec![root("system-toplevel", "/nix/store/aaa", "fp1")];
    let new = vec![root("system-toplevel", "/nix/store/aaa", "fp1")];

    let diff = diff_roots(&old, &new);
    assert!(diff.added.is_empty());
    assert!(diff.changed.is_empty());
    assert_eq!(diff.unchanged.len(), 1);
    assert!(diff.removed.is_empty());
}

#[test]
fn diff_reports_removed_when_label_disappears() {
    let old = vec![root("system-toplevel", "/nix/store/aaa", "fp1")];
    let new = vec![];

    let diff = diff_roots(&old, &new);
    assert!(diff.added.is_empty());
    assert!(diff.changed.is_empty());
    assert!(diff.unchanged.is_empty());
    assert_eq!(diff.removed, vec!["system-toplevel"]);
}

#[test]
fn diff_handles_mixed_changes() {
    let old = vec![
        root("system-toplevel", "/nix/store/sys-old", "fp-sys-old"),
        root("identity-cli", "/nix/store/id-old", "fp-id"),
        root("removed-pkg", "/nix/store/rm", "fp-rm"),
    ];
    let new = vec![
        root("system-toplevel", "/nix/store/sys-new", "fp-sys-new"), // changed
        root("identity-cli", "/nix/store/id-old", "fp-id"),          // unchanged
        root("new-pkg", "/nix/store/new", "fp-new"),                 // added
    ];

    let diff = diff_roots(&old, &new);
    assert_eq!(diff.added.len(), 1);
    assert_eq!(diff.added[0].label, "new-pkg");
    assert_eq!(diff.changed.len(), 1);
    assert_eq!(diff.changed[0].label, "system-toplevel");
    assert_eq!(diff.unchanged.len(), 1);
    assert_eq!(diff.unchanged[0].label, "identity-cli");
    assert_eq!(diff.removed, vec!["removed-pkg"]);
}

#[test]
fn diff_treats_empty_fingerprint_as_changed() {
    let old = vec![root("pkg", "/nix/store/old", "")];
    let new = vec![root("pkg", "/nix/store/old", "")];

    let diff = diff_roots(&old, &new);
    // Empty fingerprints never match → always treated as changed.
    assert_eq!(diff.changed.len(), 1);
    assert!(diff.unchanged.is_empty());
}

#[test]
fn the_last_root_of_a_label_counts() {
    let old = vec![root("pkg", "/nix/store/a", "fp1"), root("pkg", "/nix/store/b", "fp2")];
    let new = vec![root("pkg", "/nix/store/b", "fp2"), root("pkg", "/nix/store/a", "fp1")];

    let diff = diff_roots(&old, &new);
    assert_eq!(diff.unchanged, vec![root("pkg", "/nix/store/b", "fp2")]);
    assert_eq!(diff.changed, vec![root("pkg", "/nix/store/a", "fp1")]);
    assert!(diff.removed.is_empty());
    assert_eq!(diff.added.len() + diff.changed.len() + diff.unchanged.len(), new.len());
}

#[test]
fn roots_compared_with_themselves_are_unchanged() {
    let roots = vec![root("a", "/nix/store/a", "fp1"), root("b", "/nix/store/b", "fp1")];
    let diff = diff_roots(&roots, &roots);
    assert_eq!(diff.unchanged, roots);
    assert!(diff.added.is_empty() && diff.changed.is_empty() && diff.removed.is_empty());
}

#[test]
fn a_label_that_is_gone_is_removed_once_for_each_root() {
    let old = vec![root("a", "/nix/store/1", "x"), root("a", "/nix/store/2", "y")];
    let diff = diff_roots(&old, &[]);
    assert_eq!(diff.removed, vec!["a", "a"]);
}

#[test]
fn too_few_labels_are_not_used() {
    let artifact = RequirementsArtifact {
        roots: (0..11).map(|i| format!("/nix/store/{i}")).collect(),
        drvs: vec![],
        fingerprint: None,
        root_labels: vec!["only".to_owned()],
        root_fingerprints: (0..11).map(|i| format!("fp{i}")).collect(),
    };
    let labeled = label_roots(&artifact);
    assert_eq!(labeled[10].label, "root-10");
    assert_eq!(labeled[10].path, "/nix/store/10");
    assert_eq!(labeled[10].fingerprint, "fp10");
}
