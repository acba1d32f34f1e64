use ludusavi::manifest::{
    Game, GameFileConstraint, GameFileEntry, GameInstallDirEntry, GameRegistryConstraint,
    GameRegistryEntry, GogMetadata, Manifest, Os, SteamMetadata, Store, Tag,
};

fn s(text: &str) -> String {
    text.to_string()
}

#[test]
fn can_parse_game_with_no_fields() {
    let manifest = Manifest::load_from_string(
        r#"
            game: {}
            "#,
    )
    .unwrap();

    assert_eq!(
        Game {
            files: None,
            install_dir: None,
            registry: None,
            steam: None,
            gog: None,
        },
        *manifest.get("game").unwrap(),
    );
}

#[test]
fn can_parse_game_with_all_fields() {
    let manifest = Manifest::load_from_string(
        r#"
            game:
              files:
                foo:
                  when:
                    - os: windows
                      store: steam
                  tags:
                    - save
              installDir:
                ExampleGame: {}
              registry:
                bar:
                  when:
                    - store: epic
                  tags:
                    - config
              steam:
                id: 101
              gog:
                id: 102
            "#,
    )
    .unwrap();

    assert_eq!(
        Game {
            files: Some(vec![(
                s("foo"),
                GameFileEntry {
                    when: Some(vec![GameFileConstraint {
                        os: Some(Os::Windows),
                        store: Some(Store::Steam),
                    }]),
                    tags: Some(vec![Tag::Save]),
                }
            )]),
            install_dir: Some(vec![(s("ExampleGame"), GameInstallDirEntry {})]),
            registry: Some(vec![(
                s("bar"),
                GameRegistryEntry {
                    when: Some(vec![GameRegistryConstraint {
                        store: Some(Store::Epic),
                    }]),
                    tags: Some(vec![Tag::Config]),
                }
            )]),
            steam: Some(SteamMetadata { id: Some(101) }),
            gog: Some(GogMetadata { id: Some(102) }),
        },
        *manifest.get("game").unwrap(),
    );
}

#[test]
fn can_parse_game_with_minimal_files() {
    let manifest = Manifest::load_from_string(
        r#"
            game:
              files: {}
            "#,
    )
    .unwrap();

    assert!(manifest.get("game").unwrap().files.as_ref().unwrap().is_empty());
}

#[test]
fn can_parse_game_with_minimal_files_when() {
    let manifest = Manifest::load_from_string(
        r#"
            game:
              files:
                foo:
                  when: []
            "#,
    )
    .unwrap();

    let game = manifest.get("game").unwrap();
    let (key, entry) = &game.files.as_ref().unwrap()[0];
    assert_eq!(&s("foo"), key);
    assert!(entry.when.as_ref().unwrap().is_empty());
}

#[test]
fn can_parse_game_with_minimal_files_when_item() {
    let manifest = Manifest::load_from_string(
        r#"
            game:
              files:
                foo:
                  when:
                    - {}
            "#,
    )
    .unwrap();

    let game = manifest.get("game").unwrap();
    let (_, entry) = &game.files.as_ref().unwrap()[0];
    assert_eq!(
        GameFileConstraint { os: None, store: None },
        entry.when.as_ref().unwrap()[0],
    );
}

#[test]
fn can_parse_game_with_minimal_files_tags() {
    let manifest = Manifest::load_from_string(
        r#"
            game:
              files:
                foo:
                  tags: []
            "#,
    )
    .unwrap();

    let game = manifest.get("game").unwrap();
    let (_, entry) = &game.files.as_ref().unwrap()[0];
    assert!(entry.tags.as_ref().unwrap().is_empty());
}

#[test]
fn can_parse_game_with_minimal_install_dir() {
    let manifest = Manifest::load_from_string(
        r#"
            game:
              installDir: {}
            "#,
    )
    .unwrap();

    assert!(manifest.get("game").unwrap().install_dir.as_ref().unwrap().is_empty());
}

#[test]
fn can_parse_game_with_minimal_registry() {
    let manifest = Manifest::load_from_string(
        r#"
            game:
              registry: {}
            "#,
    )
    .unwrap();

    assert!(manifest.get("game").unwrap().registry.as_ref().unwrap().is_empty());
}

#[test]
fn can_parse_game_with_minimal_registry_when() {
    let manifest = Manifest::load_from_string(
        r#"
            game:
              registry:
                foo:
                  when: []
            "#,
    )
    .unwrap();

    let game = manifest.get("game").unwrap();
    let (_, entry) = &game.registry.as_ref().unwrap()[0];
    assert!(entry.when.as_ref().unwrap().is_empty());
}

#[test]
fn can_parse_game_with_minimal_registry_when_item() {
    let manifest = Manifest::load_from_string(
        r#"
            game:
              registry:
                foo:
                  when:
                    - {}
            "#,
    )
    .unwrap();

    let game = manifest.get("game").unwrap();
    let (_, entry) = &game.registry.as_ref().unwrap()[0];
    assert_eq!(GameRegistryConstraint { store: None }, entry.when.as_ref().unwrap()[0]);
}

#[test]
fn can_parse_game_with_minimal_registry_tags() {
    let manifest = Manifest::load_from_string(
        r#"
            game:
              registry:
                foo:
                  tags: []
            "#,
    )
    .unwrap();

    let game = manifest.get("game").unwrap();
    let (_, entry) = &game.registry.as_ref().unwrap()[0];
    assert!(entry.tags.as_ref().unwrap().is_empty());
}

#[test]
fn can_parse_game_with_minimal_steam() {
    let manifest = Manifest::load_from_string(
        r#"
            game:
              steam: {}
            "#,
    )
    .unwrap();

    assert_eq!(
        &SteamMetadata { id: None },
        manifest.get("game").unwrap().steam.as_ref().unwrap(),
    );
}

#[test]
fn can_parse_game_with_minimal_gog() {
    let manifest = Manifest::load_from_string(
        r#"
            game:
              gog: {}
            "#,
    )
    .unwrap();

    assert_eq!(
        &GogMetadata { id: None },
        manifest.get("game").unwrap().gog.as_ref().unwrap(),
    );
}

#[test]
fn rejects_text_outside_the_manifest_shape() {
    assert!(Manifest::load_from_string("no colon here").is_err());
}

#[test]
fn merges_custom_game_preserving_metadata() {
    let mut manifest = Manifest::load_from_string(
        r#"
            game:
              files:
                original: {}
              installDir:
                GameDir: {}
              steam:
                id: 7
              gog:
                id: 9
            "#,
    )
    .unwrap();
    manifest.add_custom_game(ludusavi::manifest::CustomGame {
        name: s("game"),
        ignore: false,
        files: vec![s("custom-pattern")],
        registry: vec![],
    });
    let game = manifest.get("game").unwrap();
    // the override's pattern list replaces the original one
    assert_eq!(1, game.files.as_ref().unwrap().len());
    assert_eq!(s("custom-pattern"), game.files.as_ref().unwrap()[0].0);
    // but the existing entry's store ids and install-dir hints are preserved
    assert_eq!(Some(SteamMetadata { id: Some(7) }), game.steam);
    assert_eq!(Some(GogMetadata { id: Some(9) }), game.gog);
    assert_eq!(1, game.install_dir.as_ref().unwrap().len());
}

#[test]
fn ignored_overrides_leave_the_manifest_untouched() {
    let mut manifest = Manifest::load_from_string(
        r#"
            game:
              files:
                original: {}
            "#,
    )
    .unwrap();
    let before = manifest.clone();
    manifest.load_custom_games(&vec![ludusavi::manifest::CustomGame {
        name: s("game"),
        ignore: true,
        files: vec![s("custom-pattern")],
        registry: vec![],
    }]);
    assert_eq!(before, manifest);
}

#[test]
fn maps_steam_and_gog_ids_to_names() {
    let manifest = Manifest::load_from_string(
        r#"
            alpha:
              steam:
                id: 11
            beta:
              gog:
                id: 22
            "#,
    )
    .unwrap();
    assert_eq!(vec![(11u32, s("alpha"))], manifest.map_steam_ids_to_names());
    assert_eq!(vec![(22u64, s("beta"))], manifest.map_gog_ids_to_names());
}
