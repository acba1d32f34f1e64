use ludusavi::cli::{get_invalid_games, get_subjects, validate_backup_id_selection, CliSort};
use ludusavi::dupes::DuplicateDetector;
use ludusavi::gui::{EditDirection, GameAction, Icon, Shortcut, TextHistory};
use ludusavi::layout::{
    backup_name, effective_entries, restore_plan, BackupId, BackupKind, GameLayout, Retention,
    scan_game_for_restoration,
};
use ludusavi::manifest::{Game, GameFileEntry, Manifest, Os, Store};
use ludusavi::matching::{glob_match_chars, glob_match_chars_ci};
use ludusavi::orchestrate::{
    cancelled_step, step_decision, OperationStatus, OperationStepDecision, SortKey,
};
use ludusavi::path::{from_portable, game_file_target, RedirectConfig, RedirectKind, RegistryItem, StrictPath};
use ludusavi::scan::{
    scan_game_for_backup, BackupFilter, InstallDirRanking, RootsConfig, ScanContext, ScanInfo,
    ScannedFile, ScannedRegistry, SystemFile, SystemRegistryEntry, SystemSnapshot, ToggledPaths,
    ToggledRegistry,
};

fn s(text: &str) -> String {
    text.to_string()
}

fn chars(text: &str) -> Vec<char> {
    text.chars().collect()
}

fn ctx_on(os: Os, home: &str) -> ScanContext {
    ScanContext {
        os,
        home: StrictPath::new(s(home)),
        win_app_data: StrictPath::new(format!("{home}/AppData/Roaming")),
        win_local_app_data: StrictPath::new(format!("{home}/AppData/Local")),
        win_documents: StrictPath::new(format!("{home}/Documents")),
        xdg_config: StrictPath::new(format!("{home}/.config")),
        xdg_data: StrictPath::new(format!("{home}/.local/share")),
        wine_prefix: None,
    }
}

fn scan_of(name: &str, files: Vec<ScannedFile>) -> ScanInfo {
    ScanInfo {
        game_name: s(name),
        found_files: files,
        found_registry_keys: vec![],
        available_backups: vec![],
        backup: None,
    }
}

#[test]
fn empty_scan_found_nothing_and_contributes_nothing() {
    // an empty matched set reports nothing found
    let scan = scan_of("Empty", vec![]);
    assert!(!scan.found_anything());

    // and adding it to the duplicate detector records nothing
    let mut detector = DuplicateDetector::default();
    detector.add_game(&scan);
    assert!(detector.files.entries.is_empty());
    assert!(detector.registry.entries.is_empty());
}

#[test]
fn portable_path_round_trip_for_drive_paths() {
    let p = StrictPath::new(s("C:\\Users\\me\\saves"));
    assert_eq!(s("C:/Users/me/saves"), p.render());
    let portable = p.to_portable();
    assert_eq!(s("drive-C/Users/me/saves"), portable);
    assert_eq!(p.render(), from_portable(&portable).render());
}

#[test]
fn portable_path_round_trip_for_rooted_paths() {
    let p = StrictPath::new(s("/save//a/"));
    assert_eq!(s("/save/a"), p.render());
    let portable = p.to_portable();
    assert_eq!(s("drive/save/a"), portable);
    assert_eq!(p.render(), from_portable(&portable).raw);
}

#[test]
fn restoring_latest_overlays_all_generations() {
    // one full and two differential generations; a path deleted in the
    // second generation and re-added in the third is present at Latest
    let mut layout = GameLayout::new(s("Foo"));
    let retention = Retention::new(1, 5);

    let scan1 = scan_of(
        "Foo",
        vec![ScannedFile::new("/save/x", 10, "h1"), ScannedFile::new("/save/y", 20, "h2")],
    );
    let plan1 = layout.back_up(&scan1, &retention, 1000);
    assert_eq!(BackupKind::Full, plan1.kind);

    let scan2 = scan_of("Foo", vec![ScannedFile::new("/save/y", 20, "h2")]);
    let plan2 = layout.back_up(&scan2, &retention, 2000);
    assert_eq!(BackupKind::Differential, plan2.kind);

    let scan3 = scan_of(
        "Foo",
        vec![ScannedFile::new("/save/x", 30, "h3"), ScannedFile::new("/save/y", 20, "h2")],
    );
    let plan3 = layout.back_up(&scan3, &retention, 3000);
    assert_eq!(BackupKind::Differential, plan3.kind);

    let info = scan_game_for_restoration(&s("Foo"), &BackupId::Latest, &layout);
    assert!(info.backup.is_some());
    let mut found: Vec<(String, u64, String)> = info
        .found_files
        .iter()
        .map(|f| (f.path.render(), f.size, f.hash.clone()))
        .collect();
    found.sort();
    assert_eq!(
        vec![(s("/save/x"), 30, s("h3")), (s("/save/y"), 20, s("h2"))],
        found,
    );
}

#[test]
fn retention_keeps_the_two_most_recent_differentials() {
    // full=1, differential=2: after one full and three differential
    // backups, exactly the two newest differentials remain, and the full
    // backup they depend on is still there
    let mut layout = GameLayout::new(s("Foo"));
    let retention = Retention::new(1, 2);

    let base = scan_of("Foo", vec![ScannedFile::new("/save/a", 1, "h1")]);
    assert_eq!(BackupKind::Full, layout.back_up(&base, &retention, 1000).kind);
    for (when, hash) in [(2000u64, "h2"), (3000, "h3"), (4000, "h4")] {
        let scan = scan_of("Foo", vec![ScannedFile::new("/save/a", 1, hash)]);
        assert_eq!(
            BackupKind::Differential,
            layout.back_up(&scan, &retention, when).kind
        );
    }

    assert_eq!(1, layout.chain.len());
    let full = &layout.chain[0];
    assert_eq!(backup_name(1000), full.name);
    assert_eq!(2, full.children.len());
    assert_eq!(backup_name(3000), full.children[0].name);
    assert_eq!(backup_name(4000), full.children[1].name);
}

#[test]
fn duplicate_detection_round_trip() {
    let mut detector = DuplicateDetector::default();
    let file = ScannedFile::new("/file1", 10, "h1");

    detector.add_game(&scan_of("A", vec![ScannedFile::new("/file1", 10, "h1")]));
    detector.add_game(&scan_of("B", vec![ScannedFile::new("/file1", 10, "h1")]));
    assert!(detector.is_file_duplicated(&file));

    detector.remove_game(&s("B"));
    assert!(!detector.is_file_duplicated(&file));

    detector.remove_game(&s("A"));
    assert!(detector.files.entries.is_empty());
    assert!(detector.registry.entries.is_empty());
}

#[test]
fn scanning_twice_is_identical() {
    let game = Game {
        files: Some(vec![(s("<root>/save/*"), GameFileEntry { tags: None, when: None })]),
        install_dir: None,
        registry: None,
        steam: None,
        gog: None,
    };
    let roots = vec![RootsConfig { path: StrictPath::new(s("/games")), store: Store::Steam }];
    let ctx = ctx_on(Os::Linux, "/home/u");
    let snapshot = SystemSnapshot {
        files: vec![
            SystemFile { path: StrictPath::new(s("/games/save/a")), size: 100, hash: s("h1") },
            SystemFile { path: StrictPath::new(s("/games/other/b")), size: 5, hash: s("h2") },
        ],
        registry: vec![],
    };
    let ranking = InstallDirRanking(vec![]);
    let filter = BackupFilter::default();
    let toggled_paths = ToggledPaths::default();
    let toggled_registry = ToggledRegistry::default();

    let scan = |_: ()| {
        scan_game_for_backup(
            &game,
            &s("Foo"),
            &roots,
            &ctx,
            &snapshot,
            &ranking,
            &filter,
            &toggled_paths,
            &toggled_registry,
        )
    };
    let first = scan(());
    let second = scan(());
    assert_eq!(first, second);

    // and the scan matched exactly the covered file
    assert_eq!(1, first.found_files.len());
    assert_eq!(s("/games/save/a"), first.found_files[0].path.render());
    assert_eq!(100, first.found_files[0].size);
    assert_eq!(s("h1"), first.found_files[0].hash);
}

#[test]
fn full_then_differential_then_restore() {
    // subject "Foo" has /save/a (100 bytes) and /save/b (50 bytes)
    let mut layout = GameLayout::new(s("Foo"));
    let retention = Retention::new(1, 2);

    let scan1 = scan_of(
        "Foo",
        vec![ScannedFile::new("/save/a", 100, "ha1"), ScannedFile::new("/save/b", 50, "hb")],
    );
    let plan1 = layout.back_up(&scan1, &retention, 1000);
    assert_eq!(BackupKind::Full, plan1.kind);
    assert_eq!(2, layout.chain[0].files.len());

    // modify /save/a to 120 bytes: the differential records only /save/a
    let scan2 = scan_of(
        "Foo",
        vec![ScannedFile::new("/save/a", 120, "ha2"), ScannedFile::new("/save/b", 50, "hb")],
    );
    let plan2 = layout.back_up(&scan2, &retention, 2000);
    assert_eq!(BackupKind::Differential, plan2.kind);
    let child = &layout.chain[0].children[0];
    assert_eq!(1, child.files.len());
    assert_eq!(s("drive/save/a"), child.files[0].key);
    let change = child.files[0].change.as_ref().unwrap();
    assert_eq!(120, change.size);
    assert_eq!(s("ha2"), change.hash);

    // restoring Latest yields /save/a at 120 and /save/b at 50
    let info = scan_game_for_restoration(&s("Foo"), &BackupId::Latest, &layout);
    let mut found: Vec<(String, u64)> =
        info.found_files.iter().map(|f| (f.path.render(), f.size)).collect();
    found.sort();
    assert_eq!(vec![(s("/save/a"), 120), (s("/save/b"), 50)], found);

    // the restore plan writes both files to their original locations
    let plan = restore_plan(&info, &vec![]);
    let mut targets: Vec<(String, u64)> =
        plan.files.iter().map(|f| (f.target.render(), f.size)).collect();
    targets.sort();
    assert_eq!(vec![(s("/save/a"), 120), (s("/save/b"), 50)], targets);
}

#[test]
fn cancellation_after_two_of_ten_tasks() {
    // the flag is observed set from the third task on: the aggregate holds
    // ten entries, and the un-started tasks report Cancelled with an empty
    // scan
    let names: Vec<String> = (0..10).map(|i| format!("game{}", i)).collect();
    let mut results: Vec<(ScanInfo, ludusavi::layout::BackupInfo, OperationStepDecision)> =
        Vec::new();
    for (i, name) in names.iter().enumerate() {
        let cancelled = i >= 2;
        if cancelled {
            results.push(cancelled_step(name));
        } else {
            let scan = scan_of(name, vec![ScannedFile::new("/f", 1, "h")]);
            let decision = step_decision(false, true, true);
            results.push((scan, Default::default(), decision));
        }
    }
    assert_eq!(10, results.len());
    for (i, (scan, _, decision)) in results.iter().enumerate() {
        if i >= 2 {
            assert_eq!(OperationStepDecision::Cancelled, *decision);
            assert!(!scan.found_anything());
        } else {
            assert_eq!(OperationStepDecision::Processed, *decision);
        }
    }
}

#[test]
fn step_decision_cases() {
    assert_eq!(OperationStepDecision::Cancelled, step_decision(true, true, true));
    assert_eq!(OperationStepDecision::Ignored, step_decision(false, false, false));
    assert_eq!(OperationStepDecision::Processed, step_decision(false, false, true));
    assert_eq!(OperationStepDecision::Processed, step_decision(false, true, false));
}

#[test]
fn glob_patterns_match_within_and_across_segments() {
    assert!(glob_match_chars(&chars("/save/*.dat"), &chars("/save/slot1.dat")));
    assert!(!glob_match_chars(&chars("/save/*.dat"), &chars("/save/sub/slot1.dat")));
    assert!(glob_match_chars(&chars("/save/**"), &chars("/save/sub/slot1.dat")));
    assert!(!glob_match_chars(&chars("/save/*"), &chars("/other/a")));
}

#[test]
fn glob_matching_can_ignore_ascii_case() {
    assert!(!glob_match_chars(&chars("/Save/*.DAT"), &chars("/save/slot1.dat")));
    assert!(glob_match_chars_ci(&chars("/Save/*.DAT"), &chars("/save/slot1.dat")));
    assert!(!glob_match_chars_ci(&chars("/Save/*.DAT"), &chars("/other/slot1.dat")));
}

#[test]
fn redirects_rewrite_by_first_matching_prefix() {
    let redirects = vec![
        RedirectConfig {
            kind: RedirectKind::Restore,
            source: StrictPath::new(s("/new")),
            target: StrictPath::new(s("/old")),
        },
        RedirectConfig {
            kind: RedirectKind::Restore,
            source: StrictPath::new(s("/newer")),
            target: StrictPath::new(s("/old")),
        },
    ];
    // restoring maps the stored target prefix back to the source
    let r = game_file_target(&StrictPath::new(s("/old/save/a")), &redirects, true);
    assert_eq!(s("/new/save/a"), r.raw);
    // no rule applies in the backup direction here
    let b = game_file_target(&StrictPath::new(s("/old/save/a")), &redirects, false);
    assert_eq!(s("/old/save/a"), b.raw);
}

#[test]
fn sum_bytes_counts_unfailed_unignored_files() {
    let mut scan = scan_of(
        "Foo",
        vec![ScannedFile::new("/a", 100, "1"), ScannedFile::new("/b", 50, "2")],
    );
    assert_eq!(150, scan.sum_bytes(None));
    scan.found_files[1].ignored = true;
    assert_eq!(100, scan.sum_bytes(None));

    let mut status = OperationStatus::default();
    status.add_game(&scan, &None, true);
    assert_eq!(1, status.total_games);
    assert_eq!(100, status.total_bytes);
    assert_eq!(1, status.processed_games);
    assert_eq!(100, status.processed_bytes);
}

#[test]
fn backup_names_carry_the_epoch_second() {
    assert_eq!(s("backup-1700000000"), backup_name(1700000000));
    assert_eq!(s("backup-0"), backup_name(0));
}

#[test]
fn named_backup_resolution() {
    let mut layout = GameLayout::new(s("Foo"));
    let retention = Retention::new(2, 2);
    layout.back_up(&scan_of("Foo", vec![ScannedFile::new("/a", 1, "h1")]), &retention, 1000);
    layout.back_up(&scan_of("Foo", vec![ScannedFile::new("/a", 1, "h2")]), &retention, 2000);

    let named = scan_game_for_restoration(
        &s("Foo"),
        &BackupId::Named(backup_name(1000)),
        &layout,
    );
    assert!(named.backup.is_some());
    assert_eq!(backup_name(1000), named.backup.unwrap().name);
    assert_eq!(s("h1"), named.found_files[0].hash);

    let absent = scan_game_for_restoration(&s("Foo"), &BackupId::Named(s("nope")), &layout);
    assert!(absent.backup.is_none());
    assert!(absent.found_files.is_empty());
    assert_eq!(2, absent.available_backups.len());
}

#[test]
fn effective_entries_overlay_deletion_markers() {
    let mut layout = GameLayout::new(s("Foo"));
    let retention = Retention::new(1, 5);
    layout.back_up(
        &scan_of("Foo", vec![ScannedFile::new("/a", 1, "h1"), ScannedFile::new("/b", 2, "h2")]),
        &retention,
        1000,
    );
    layout.back_up(&scan_of("Foo", vec![ScannedFile::new("/b", 2, "h2")]), &retention, 2000);
    let full = &layout.chain[0];
    let eff = effective_entries(&full.files, &full.children, full.children.len(), false);
    assert_eq!(1, eff.len());
    assert_eq!(s("drive/b"), eff[0].key);
}

#[test]
fn text_history_undo_redo() {
    let mut history = TextHistory::new(s("one"));
    history.push("two");
    history.push("three");
    assert_eq!(s("two"), history.undo());
    assert_eq!(s("one"), history.undo());
    assert_eq!(s("one"), history.undo());
    assert_eq!(s("two"), history.redo());
    assert_eq!(s("three"), history.redo());
    assert_eq!(s("three"), history.redo());

    let mut field = s("three");
    ludusavi::gui::apply_shortcut_to_string_field(&Shortcut::Undo, &mut field, &mut history);
    assert_eq!(s("two"), field);
}

#[test]
fn game_action_options_and_icons() {
    let options = GameAction::options(false, false, false, false, false);
    assert_eq!(
        vec![
            GameAction::PreviewBackup,
            GameAction::Backup { confirm: true },
            GameAction::Customize,
            GameAction::Wiki,
        ],
        options,
    );
    assert_eq!(Icon::PlayCircleOutline, GameAction::Backup { confirm: true }.icon());
    assert_eq!(Icon::FastForward, GameAction::Restore { confirm: false }.icon());
    assert_eq!(Icon::Refresh, GameAction::PreviewBackup.icon());
}

#[test]
fn edit_direction_shift() {
    assert_eq!(4, EditDirection::Up.shift(5));
    assert_eq!(6, EditDirection::Down.shift(5));
}

#[test]
fn cli_sort_maps_to_engine_order() {
    assert_eq!(SortKey::Name, CliSort::Name.to_sort().key);
    assert!(CliSort::NameReversed.to_sort().reversed);
    assert_eq!(SortKey::Size, CliSort::SizeReversed.to_sort().key);
}

#[test]
fn invalid_games_by_name_and_by_steam_id() {
    let manifest = Manifest::load_from_string(
        r#"
            alpha:
              steam:
                id: 11
            "#,
    )
    .unwrap();
    let known = vec![s("alpha")];

    let invalid = get_invalid_games(&known, &vec![s("alpha"), s("beta")], false, &manifest);
    assert_eq!(vec![s("beta")], invalid);

    let invalid = get_invalid_games(&known, &vec![s("11"), s("12"), s("x")], true, &manifest);
    assert_eq!(vec![s("12"), s("x")], invalid);

    let subjects = get_subjects(known.clone(), &vec![s("11")], true, &manifest);
    assert_eq!(vec![s("alpha")], subjects);

    let all = get_subjects(vec![s("b"), s("a")], &vec![], false, &manifest);
    assert_eq!(vec![s("a"), s("b")], all);
}

#[test]
fn registry_scan_and_toggles() {
    let manifest = Manifest::load_from_string(
        r#"
            game:
              registry:
                HKEY_CURRENT_USER/Software/Foo: {}
            "#,
    )
    .unwrap();
    let game = manifest.get("game").unwrap();
    let roots = vec![RootsConfig { path: StrictPath::new(s("C:/games")), store: Store::Steam }];
    let ctx = ctx_on(Os::Windows, "C:/Users/u");
    let snapshot = SystemSnapshot {
        files: vec![],
        registry: vec![
            SystemRegistryEntry {
                path: RegistryItem::new(s("HKEY_CURRENT_USER/Software/Foo/Key1")),
                content: s("v1"),
            },
            SystemRegistryEntry {
                path: RegistryItem::new(s("HKEY_CURRENT_USER/Software/Other")),
                content: s("v2"),
            },
        ],
    };
    let info = scan_game_for_backup(
        game,
        &s("game"),
        &roots,
        &ctx,
        &snapshot,
        &InstallDirRanking(vec![]),
        &BackupFilter::default(),
        &ToggledPaths::default(),
        &ToggledRegistry::default(),
    );
    assert_eq!(1, info.found_registry_keys.len());
    assert_eq!(
        s("HKEY_CURRENT_USER/Software/Foo/Key1"),
        info.found_registry_keys[0].path.render()
    );
    assert_eq!(ScannedRegistry::new("x").ignored, info.found_registry_keys[0].ignored);
}

#[test]
fn parse_errors_produce_manifest_invalid() {
    match Manifest::load_from_string("game") {
        Err(ludusavi::Error::ManifestInvalid { .. }) => {}
        other => panic!("unexpected result: {:?}", other),
    }
}

#[test]
fn app_data_and_wine_prefix_placeholders_resolve() {
    let game = Game {
        files: Some(vec![
            (s("<xdgData>/Game/*"), GameFileEntry { tags: None, when: None }),
            (s("<winePrefix>/drive_c/save.dat"), GameFileEntry { tags: None, when: None }),
        ]),
        install_dir: None,
        registry: None,
        steam: None,
        gog: None,
    };
    let roots = vec![RootsConfig { path: StrictPath::new(s("/games")), store: Store::Steam }];
    let snapshot = SystemSnapshot {
        files: vec![
            SystemFile {
                path: StrictPath::new(s("/home/u/.local/share/Game/slot1")),
                size: 7,
                hash: s("h1"),
            },
            SystemFile {
                path: StrictPath::new(s("/prefix/drive_c/save.dat")),
                size: 9,
                hash: s("h2"),
            },
        ],
        registry: vec![],
    };
    let scan = |ctx: &ScanContext| {
        scan_game_for_backup(
            &game,
            &s("Foo"),
            &roots,
            ctx,
            &snapshot,
            &InstallDirRanking(vec![]),
            &BackupFilter::default(),
            &ToggledPaths::default(),
            &ToggledRegistry::default(),
        )
    };

    // without a compatibility prefix only the app-data pattern matches
    let ctx = ctx_on(Os::Linux, "/home/u");
    let info = scan(&ctx);
    assert_eq!(1, info.found_files.len());
    assert_eq!(s("/home/u/.local/share/Game/slot1"), info.found_files[0].path.render());

    // with one, the prefix-rooted pattern matches as well
    let mut with_prefix = ctx_on(Os::Linux, "/home/u");
    with_prefix.wine_prefix = Some(StrictPath::new(s("/prefix")));
    let info = scan(&with_prefix);
    assert_eq!(2, info.found_files.len());
}

#[test]
fn invalid_games_come_back_sorted() {
    let manifest = Manifest::load_from_string("alpha: {}").unwrap();
    let known = vec![s("alpha")];
    let invalid = get_invalid_games(
        &known,
        &vec![s("zeta"), s("beta"), s("alpha")],
        false,
        &manifest,
    );
    assert_eq!(vec![s("beta"), s("zeta")], invalid);
}

#[test]
fn named_backup_selection_needs_one_subject() {
    assert!(validate_backup_id_selection(&None, 0).is_ok());
    assert!(validate_backup_id_selection(&None, 3).is_ok());
    assert!(validate_backup_id_selection(&Some(s("backup-1")), 1).is_ok());
    assert_eq!(
        Err(ludusavi::Error::CliBackupIdWithMultipleGames),
        validate_backup_id_selection(&Some(s("backup-1")), 2),
    );
}

#[test]
fn cli_sort_names_parse() {
    assert_eq!(Some(CliSort::Name), CliSort::parse("name"));
    assert_eq!(Some(CliSort::NameReversed), CliSort::parse("name-rev"));
    assert_eq!(Some(CliSort::Size), CliSort::parse("size"));
    assert_eq!(Some(CliSort::SizeReversed), CliSort::parse("size-rev"));
    assert_eq!(None, CliSort::parse("age"));
}

#[test]
fn prefill_custom_offers_the_declared_patterns() {
    let manifest = Manifest::load_from_string(
        r#"
            game:
              files:
                pat1: {}
                pat2: {}
              registry:
                reg1: {}
            "#,
    )
    .unwrap();
    let custom = manifest.prefill_custom(&s("game"));
    assert_eq!(s("game"), custom.name);
    assert!(!custom.ignore);
    assert_eq!(vec![s("pat1"), s("pat2")], custom.files);
    assert_eq!(vec![s("reg1")], custom.registry);

    let absent = manifest.prefill_custom(&s("other"));
    assert!(absent.files.is_empty());
    assert!(absent.registry.is_empty());
}

#[test]
fn backups_lists_generations_in_chain_order() {
    let mut layout = GameLayout::new(s("Foo"));
    let retention = Retention::new(2, 5);
    layout.back_up(&scan_of("Foo", vec![ScannedFile::new("/a", 1, "h1")]), &retention, 1000);
    layout.back_up(&scan_of("Foo", vec![ScannedFile::new("/a", 1, "h2")]), &retention, 2000);
    let listing = layout.backups();
    assert_eq!(2, listing.len());
    assert_eq!(backup_name(1000), listing[0].name);
    assert_eq!(BackupKind::Full, listing[0].kind);
    assert_eq!(backup_name(2000), listing[1].name);
    assert_eq!(BackupKind::Differential, listing[1].kind);
    assert_eq!(2000, listing[1].when);
}
