use ludusavi::manifest::Manifest;
use ludusavi::orchestrate::{sort_results_by_name, OngoingOperation, OperationStepDecision,
    StepResult};
use ludusavi::path::{from_portable, StrictPath};
use ludusavi::scan::ScanInfo;

fn s(text: &str) -> String {
    text.to_string()
}

#[test]
fn normalization_canonicalizes_separators() {
    assert_eq!(s("C:/a/b"), StrictPath::new(s("C:\\a\\\\b\\")).render());
    assert_eq!(s("/"), StrictPath::new(s("///")).render());
    assert_eq!(s("rel/dir"), StrictPath::new(s("rel/dir/")).render());
}

#[test]
fn portable_form_leaves_relative_paths_alone() {
    let p = StrictPath::new(s("rel/dir"));
    assert_eq!(s("rel/dir"), p.to_portable());
    assert_eq!(s("rel/dir"), from_portable("rel/dir").raw);
}

#[test]
fn paths_compare_by_normal_form() {
    let a = StrictPath::new(s("C:\\save"));
    let b = StrictPath::new(s("C:/save/"));
    assert!(a.is_under(&b));
    let c = StrictPath::new(s("C:/save/slot/file"));
    assert!(c.is_under(&b));
    assert!(!b.is_under(&c));
}

#[test]
fn ongoing_operation_transitions() {
    let op = OngoingOperation::begin(false, true);
    assert_eq!(OngoingOperation::PreviewBackup, op);
    assert!(!op.restoring());
    assert!(!op.cancelling());
    let cancelled = op.cancelled();
    assert_eq!(OngoingOperation::CancelPreviewBackup, cancelled);
    assert!(cancelled.cancelling());
    assert!(OngoingOperation::begin(true, false).restoring());
}

#[test]
fn results_sort_by_subject_name() {
    let step = |name: &str| StepResult {
        name: s(name),
        scan: ScanInfo {
            game_name: s(name),
            found_files: vec![],
            found_registry_keys: vec![],
            available_backups: vec![],
            backup: None,
        },
        backup_info: Default::default(),
        decision: OperationStepDecision::Processed,
    };
    let sorted = sort_results_by_name(vec![step("cherry"), step("apple"), step("banana")]);
    let names: Vec<String> = sorted.into_iter().map(|r| r.name).collect();
    assert_eq!(vec![s("apple"), s("banana"), s("cherry")], names);
}

#[test]
fn manifest_update_staleness() {
    // forced or missing: always refresh
    assert!(Manifest::should_update(true, true, Some(0), 0));
    assert!(Manifest::should_update(false, false, Some(0), 0));
    // never checked: refresh
    assert!(Manifest::should_update(false, true, None, 0));
    // checked less than a day ago: keep
    assert!(!Manifest::should_update(false, true, Some(1000), 1000 + 86399));
    // a full day or more: refresh
    assert!(Manifest::should_update(false, true, Some(1000), 1000 + 86400));
}

#[test]
fn parses_multiple_games_with_later_entries_winning() {
    let manifest = Manifest::load_from_string(
        r#"
            alpha:
              steam:
                id: 1
            beta: {}
            alpha:
              steam:
                id: 2
            "#,
    )
    .unwrap();
    assert_eq!(2, manifest.0.len());
    assert_eq!(
        Some(2),
        manifest.get("alpha").unwrap().steam.as_ref().unwrap().id,
    );
    assert!(manifest.get("beta").is_some());
}
