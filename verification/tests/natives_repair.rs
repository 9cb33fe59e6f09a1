use theseus::install_plan::{
    check_local_artifact, compare_local_hash, entries_to_restore, plan_native_repair, ArtifactAvailability,
    LibraryFacts, LocalArtifactCheck, NativeRepairStep,
};
use theseus::natives::{
    components_stay_inside, native_classifier, native_entry_needs_restore, native_entry_stays_inside,
    plan_restore_move, EntryTarget, PathComponentKind, RestoreMove,
};

#[test]
fn only_missing_or_zero_byte_native_entries_are_restored() {
    assert!(native_entry_needs_restore(EntryTarget::Absent));
    assert!(native_entry_needs_restore(EntryTarget::File { len: 0 }));
    assert!(!native_entry_needs_restore(EntryTarget::File { len: 8 }));
    assert!(native_entry_needs_restore(EntryTarget::Other));
}

#[test]
fn restored_entries_never_overwrite_content() {
    assert_eq!(plan_restore_move(true, EntryTarget::Absent), RestoreMove::Place);
    assert_eq!(plan_restore_move(true, EntryTarget::File { len: 0 }), RestoreMove::ReplaceEmpty);
    assert_eq!(plan_restore_move(true, EntryTarget::File { len: 3 }), RestoreMove::Keep);
    assert_eq!(plan_restore_move(true, EntryTarget::Other), RestoreMove::Keep);
    assert_eq!(plan_restore_move(false, EntryTarget::Absent), RestoreMove::Keep);
}

#[test]
fn native_classifiers_fill_in_the_architecture() {
    assert_eq!(
        native_classifier(None, Some("natives-windows-${arch}"), "64"),
        Some("natives-windows-64".to_string())
    );
    assert_eq!(
        native_classifier(Some("natives-linux"), Some("natives-other"), "64"),
        Some("natives-linux".to_string())
    );
    assert_eq!(native_classifier(None, None, "64"), None);
    assert_eq!(
        native_classifier(Some("a${arch}b${arch}"), None, "32"),
        Some("a32b32".to_string())
    );
    assert_eq!(native_classifier(Some("${arch${arch}}"), None, "64"), Some("${arch64}".to_string()));
}

#[test]
fn local_artifacts_are_reused_only_after_verification() {
    assert_eq!(
        check_local_artifact(true, false, false, None, None),
        LocalArtifactCheck::Decided(ArtifactAvailability::Cached)
    );
    assert_eq!(
        check_local_artifact(false, false, true, Some(3), Some(3)),
        LocalArtifactCheck::Decided(ArtifactAvailability::NetworkRequired)
    );
    assert_eq!(
        check_local_artifact(false, true, false, Some(3), Some(3)),
        LocalArtifactCheck::Decided(ArtifactAvailability::NetworkRequired)
    );
    assert_eq!(
        check_local_artifact(false, true, true, None, Some(3)),
        LocalArtifactCheck::Decided(ArtifactAvailability::NetworkRequired)
    );
    assert_eq!(
        check_local_artifact(false, true, true, Some(4), Some(3)),
        LocalArtifactCheck::Decided(ArtifactAvailability::NetworkRequired)
    );
    assert_eq!(check_local_artifact(false, true, true, Some(3), Some(3)), LocalArtifactCheck::CompareHash);
    assert_eq!(check_local_artifact(false, true, true, Some(3), None), LocalArtifactCheck::CompareHash);
    assert_eq!(compare_local_hash("ABCdef", "abcDEF"), ArtifactAvailability::LocalReusable);
    assert_eq!(compare_local_hash("abc", "abd"), ArtifactAvailability::NetworkRequired);
}

#[test]
fn native_entries_escaping_natives_directory_are_ignored() {
    assert!(!native_entry_stays_inside("../evil.dll"));
    assert!(!native_entry_stays_inside("/evil.dll"));
    assert!(!native_entry_stays_inside("sub/../../evil.dll"));
    assert!(native_entry_stays_inside("ok.dll"));
    assert!(native_entry_stays_inside("sub/./inner.dll"));
    assert!(components_stay_inside(false, &[PathComponentKind::Normal, PathComponentKind::CurDir, PathComponentKind::Normal]));
    assert!(!components_stay_inside(true, &[PathComponentKind::Normal]));
    assert!(!components_stay_inside(false, &[PathComponentKind::Normal, PathComponentKind::ParentDir]));
    assert!(!components_stay_inside(false, &[PathComponentKind::Prefix, PathComponentKind::Normal]));
    assert!(!components_stay_inside(false, &[PathComponentKind::RootDir]));
}

#[test]
fn native_repair_steps() {
    let mut facts = LibraryFacts {
        rules_allow: true,
        downloadable: true,
        has_natives: true,
        native_classifier: Some("natives-linux".to_string()),
        native_download: None,
        artifact_path: "a/b/1/b-1.jar".to_string(),
        artifact_present: false,
        artifact_download: None,
        repository: None,
        checksums: None,
    };
    assert_eq!(plan_native_repair(&facts, true), NativeRepairStep::Inspect);
    assert_eq!(plan_native_repair(&facts, false), NativeRepairStep::MissingArchive);
    facts.native_classifier = None;
    assert_eq!(plan_native_repair(&facts, false), NativeRepairStep::Skip);
    facts.native_classifier = Some("x".to_string());
    facts.downloadable = false;
    assert_eq!(plan_native_repair(&facts, false), NativeRepairStep::Skip);
    let entries = vec![
        ("a.dll".to_string(), 3),
        ("b.dll".to_string(), 4),
        ("c.txt".to_string(), 5),
        ("d".to_string(), 6),
    ];
    let targets = vec![
        EntryTarget::File { len: 3 },
        EntryTarget::File { len: 0 },
        EntryTarget::Absent,
        EntryTarget::Other,
    ];
    assert_eq!(
        entries_to_restore(&entries, &targets),
        vec![("b.dll".to_string(), 4), ("c.txt".to_string(), 5), ("d".to_string(), 6)]
    );
}
