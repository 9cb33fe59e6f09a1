use theseus::modpack::{
    base_folder, begin_install, classify_index_files, explicitly_server_installable, file_downloads, file_name_of,
    finish_install, find_manifest_entry, icon_extension, inspection_candidates, is_forge_server,
    is_server_installable, mod_jar_file_name, modrinth_mod_projects, modrinth_project_id_from_url,
    partition_by_server_support, server_unsupported_file_names, total_file_size,
    exclude_server_unsupported, AggregateProgress, InstallRecord, InstallState, MrpackEnv,
    MrpackFile,
};

fn file(path: &str, url: &str, size: Option<u64>) -> MrpackFile {
    MrpackFile {
        path: path.to_string(),
        hashes: Vec::new(),
        env: None,
        downloads: vec![url.to_string()],
        file_size: size,
    }
}

#[test]
fn server_only_files_are_installable() {
    let installable = MrpackFile {
        path: "mods/a.jar".to_string(),
        hashes: Vec::new(),
        env: None,
        downloads: vec!["https://example.com/a.jar".to_string()],
        file_size: Some(10),
    };
    assert!(is_server_installable(&installable));

    let optional = MrpackFile {
        env: Some(MrpackEnv {
            server: Some("optional".to_string()),
        }),
        ..installable.clone()
    };
    assert!(is_server_installable(&optional));

    let client_only = MrpackFile {
        env: Some(MrpackEnv {
            server: Some("unsupported".to_string()),
        }),
        ..installable.clone()
    };
    assert!(!is_server_installable(&client_only));
}

#[test]
fn client_only_paths_are_skipped() {
    let base = MrpackFile {
        path: String::new(),
        hashes: Vec::new(),
        env: None,
        downloads: vec!["https://example.com/a.zip".to_string()],
        file_size: Some(10),
    };

    assert!(!is_server_installable(&MrpackFile {
        path: "shaderpacks/fancy.zip".to_string(),
        ..base.clone()
    }));
    assert!(!is_server_installable(&MrpackFile {
        path: "resourcepacks/fancy.zip".to_string(),
        ..base.clone()
    }));
    assert!(!is_server_installable(&MrpackFile {
        path: r"texturepacks\fancy.zip".to_string(),
        ..base.clone()
    }));
    // Datapacks stay: dedicated servers load them.
    assert!(is_server_installable(&MrpackFile {
        path: "datapacks/data.zip".to_string(),
        ..base.clone()
    }));
}

#[test]
fn base_folder_derivation() {
    assert_eq!(base_folder("modrinth.index.json"), "");
    assert_eq!(base_folder("my-pack/modrinth.index.json"), "my-pack/");
}

#[test]
fn base_folder_of_other_entry_is_empty() {
    assert_eq!(base_folder("my-pack/other.json"), "");
}

#[test]
fn project_id_is_read_from_cdn_urls() {
    let url = "https://cdn.modrinth.com/data/AANobbMI/versions/abc/sodium.jar".to_string();
    assert_eq!(modrinth_project_id_from_url(Some(&url)), Some("AANobbMI".to_string()));
    let other = "https://example.com/sodium.jar".to_string();
    assert_eq!(modrinth_project_id_from_url(Some(&other)), None);
    assert_eq!(modrinth_project_id_from_url(None), None);
    let tail = "https://cdn.modrinth.com/data/P7dR8mSH".to_string();
    assert_eq!(modrinth_project_id_from_url(Some(&tail)), Some("P7dR8mSH".to_string()));
}

#[test]
fn manifest_entry_is_found_at_root_or_in_a_folder() {
    let names = vec!["overrides/config.txt".to_string(), "pack/modrinth.index.json".to_string()];
    assert_eq!(find_manifest_entry(&names), Some("pack/modrinth.index.json".to_string()));
    let root = vec!["modrinth.index.json".to_string()];
    assert_eq!(find_manifest_entry(&root), Some("modrinth.index.json".to_string()));
    let none = vec!["xmodrinth.index.json".to_string()];
    assert_eq!(find_manifest_entry(&none), None);
}

#[test]
fn icon_extensions_are_known_image_types() {
    assert_eq!(icon_extension("https://cdn.example.com/icon.WEBP?size=64"), "webp");
    assert_eq!(icon_extension("https://cdn.example.com/icon.jpeg#x"), "jpeg");
    assert_eq!(icon_extension("https://cdn.example.com/icon.svg"), "png");
    assert_eq!(icon_extension("https://cdn.example.com/icon"), "png");
}

#[test]
fn files_are_partitioned_by_server_support() {
    let files = vec![
        file("mods/a.jar", "https://example.com/a.jar", Some(1)),
        file("shaderpacks/s.zip", "https://example.com/s.zip", Some(2)),
        file("config/c.toml", "https://example.com/c.toml", Some(3)),
    ];
    let (installable, excluded) = partition_by_server_support(&files);
    let paths: Vec<&str> = installable.iter().map(|f| f.path.as_str()).collect();
    assert_eq!(paths, vec!["mods/a.jar", "config/c.toml"]);
    let paths: Vec<&str> = excluded.iter().map(|f| f.path.as_str()).collect();
    assert_eq!(paths, vec!["shaderpacks/s.zip"]);
}

#[test]
fn server_unsupported_mods_move_to_the_excluded_files() {
    let installable = vec![
        file("mods/a.jar", "https://cdn.modrinth.com/data/AAA/versions/1/a.jar", Some(1)),
        file("mods/b.jar", "https://cdn.modrinth.com/data/BBB/versions/1/b.jar", Some(2)),
        file("config/b.jar", "https://cdn.modrinth.com/data/CCC/versions/1/b.jar", Some(3)),
    ];
    let projects = modrinth_mod_projects(&installable);
    assert_eq!(
        projects,
        vec![("AAA".to_string(), "a.jar".to_string()), ("BBB".to_string(), "b.jar".to_string())]
    );
    let names = server_unsupported_file_names(&installable, &["BBB".to_string()]);
    assert_eq!(names, vec!["b.jar".to_string()]);
    let (kept, excluded) = exclude_server_unsupported(&installable, &[], &names);
    let kept: Vec<&str> = kept.iter().map(|f| f.path.as_str()).collect();
    let excluded: Vec<&str> = excluded.iter().map(|f| f.path.as_str()).collect();
    assert_eq!(kept, vec!["mods/a.jar"]);
    assert_eq!(excluded, vec!["mods/b.jar", "config/b.jar"]);
}

#[test]
fn mod_jar_names_are_lower_case_insensitive() {
    assert_eq!(mod_jar_file_name("mods/Sodium.JAR"), Some("Sodium.JAR".to_string()));
    assert_eq!(mod_jar_file_name(r"mods\sub\x.jar"), Some("x.jar".to_string()));
    assert_eq!(mod_jar_file_name("config/x.jar"), None);
    assert_eq!(mod_jar_file_name("mods/x.zip"), None);
    assert_eq!(file_name_of(r"a\b\c.txt"), "c.txt");
    let installable = vec![
        file("mods/a.jar", "https://example.com/a.jar", None),
        file("resourcepacks/r.zip", "https://example.com/r.zip", None),
    ];
    assert_eq!(explicitly_server_installable(&installable), vec!["a.jar".to_string()]);
}

#[test]
fn total_size_counts_declared_sizes_and_detects_overflow() {
    let files = vec![
        file("a", "u", Some(10)),
        file("b", "u", None),
        file("c", "u", Some(32)),
    ];
    assert_eq!(total_file_size(&files), Some(42));
    let huge = vec![file("a", "u", Some(u64::MAX)), file("b", "u", Some(1))];
    assert_eq!(total_file_size(&huge), None);
}

#[test]
fn downloads_take_the_first_url_and_the_sha1() {
    let mut with_hash = file("mods/a.jar", "https://example.com/a.jar", Some(7));
    with_hash.hashes = vec![
        ("sha512".to_string(), "x".to_string()),
        ("sha1".to_string(), "abc".to_string()),
    ];
    with_hash.downloads.push("https://mirror.example.com/a.jar".to_string());
    let mut no_url = file("mods/b.jar", "u", None);
    no_url.downloads.clear();
    let plan = file_downloads(&[with_hash, no_url, file("c", "https://example.com/c", None)]);
    assert_eq!(plan.len(), 2);
    assert_eq!(plan[0].path, "mods/a.jar");
    assert_eq!(plan[0].url, "https://example.com/a.jar");
    assert_eq!(plan[0].sha1, Some("abc".to_string()));
    assert_eq!(plan[0].size, 7);
    assert_eq!(plan[1].path, "c");
    assert_eq!(plan[1].sha1, None);
    assert_eq!(plan[1].size, 0);
}

#[test]
fn excluded_mod_jars_are_inspection_candidates() {
    let excluded = vec![
        file("mods/a.jar", "https://example.com/a.jar", None),
        file("shaderpacks/s.zip", "https://example.com/s.zip", None),
    ];
    let candidates = inspection_candidates(&excluded);
    assert_eq!(candidates.len(), 1);
    assert_eq!(candidates[0].file_name, "a.jar");
}

#[test]
fn aggregate_progress_is_monotonic() {
    let mut progress = AggregateProgress::new(100);
    assert_eq!(progress.bytes_done, 0);
    let (shown, total) = progress.observe(30, 50);
    assert_eq!(shown, 30);
    assert_eq!(total, Some(100));
    let (shown, total) = progress.observe(10, 50);
    assert_eq!(shown, 30);
    assert_eq!(total, Some(100));
    progress.file_finished(50);
    assert_eq!(progress.bytes_done, 50);
    let (shown, _) = progress.observe(0, 50);
    assert_eq!(shown, 50);
    let mut unknown = AggregateProgress::new(0);
    assert_eq!(unknown.observe(5, 50), (5, Some(50)));
    assert_eq!(unknown.observe(5, 0), (5, None));
}

#[test]
fn install_record_tracks_the_outcome() {
    let mut record = InstallRecord {
        install_state: None,
        install_error: Some("old".to_string()),
        jar_name: None,
        modpack: None,
    };
    begin_install(
        &mut record,
        Some("p".to_string()),
        Some("v".to_string()),
        Some("Pack".to_string()),
        None,
    );
    assert_eq!(record.install_state, Some(InstallState::Incomplete));
    assert_eq!(record.install_error, None);
    assert_eq!(record.modpack.as_ref().map(|m| m.title.as_str()), Some("Pack"));
    finish_install(&mut record, false, "server.jar", None);
    assert_eq!(record.install_state, None);
    assert_eq!(record.jar_name, Some("server.jar".to_string()));

    let mut forge = InstallRecord { install_state: None, install_error: None, jar_name: None, modpack: None };
    begin_install(&mut forge, None, Some("v".to_string()), None, None);
    assert!(forge.modpack.is_none());
    finish_install(&mut forge, true, "installer.jar", None);
    assert_eq!(forge.jar_name, None);
    finish_install(&mut forge, true, "installer.jar", Some("boom".to_string()));
    assert_eq!(forge.install_state, Some(InstallState::Failed));
    assert_eq!(forge.install_error, Some("boom".to_string()));
    assert!(is_forge_server("forge"));
    assert!(!is_forge_server("Forge"));
}

#[test]
fn index_files_are_classified_for_the_server() {
    let files = vec![
        file("mods/a.jar", "https://cdn.modrinth.com/data/AAA/versions/1/a.jar", Some(1)),
        file("shaderpacks/s.zip", "https://example.com/s.zip", Some(2)),
        file("mods/b.jar", "https://cdn.modrinth.com/data/BBB/versions/1/b.jar", Some(3)),
    ];
    let (installable, excluded) = classify_index_files(&files, &["BBB".to_string()]);
    let installable: Vec<&str> = installable.iter().map(|f| f.path.as_str()).collect();
    let excluded: Vec<&str> = excluded.iter().map(|f| f.path.as_str()).collect();
    assert_eq!(installable, vec!["mods/a.jar"]);
    assert_eq!(excluded, vec!["shaderpacks/s.zip", "mods/b.jar"]);
}
