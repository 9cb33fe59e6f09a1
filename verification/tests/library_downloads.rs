use theseus::natives::native_classifier;
use theseus::download::{
    classified_artifact_path, derived_version_cache_is_current, first_native_archives,
    is_liteloader_library, legacy_library_canonical_urls, legacy_library_content_validation,
    legacy_library_download_urls, legacy_library_sha1, minecraft_library_mirrors, should_download,
    ContentValidation, MinecraftDownloadProgress, ProgressUpdate, FORGE_MAVEN, LAUNCHER_META_MAVEN,
    LIBRARIES_MAVEN, MAVEN_CENTRAL,
};

fn urls(values: &[&str]) -> Option<Vec<String>> {
    Some(values.iter().map(|value| (*value).to_string()).collect())
}

#[test]
fn liteloader_library_detection_is_coordinate_specific() {
    assert!(is_liteloader_library("com.mumfrey:liteloader:1.12.2-SNAPSHOT"));
    assert!(!is_liteloader_library("example:liteloader:1.12.2-SNAPSHOT"));
    assert!(!is_liteloader_library("com.mumfrey:other:1.0"));
    assert!(!is_liteloader_library("com.mumfrey:liteloader"));
}

#[test]
fn legacy_launcher_meta_maven_uses_canonical_repositories() {
    assert_eq!(
        legacy_library_download_urls(
            Some("https://launcher-meta.modrinth.com/maven/"),
            "net/fabricmc/intermediary/1.21.1/intermediary-1.21.1.jar",
        ),
        urls(&[
            "https://maven.fabricmc.net/net/fabricmc/intermediary/1.21.1/intermediary-1.21.1.jar",
            "https://launcher-meta.modrinth.com/maven/net/fabricmc/intermediary/1.21.1/intermediary-1.21.1.jar",
            "https://libraries.minecraft.net/net/fabricmc/intermediary/1.21.1/intermediary-1.21.1.jar",
        ]),
    );
    assert_eq!(
        legacy_library_download_urls(
            Some("https://launcher-meta.modrinth.com/maven/"),
            "org/ow2/asm/asm/9.10.1/asm-9.10.1.jar",
        ),
        urls(&[
            "https://repo.maven.apache.org/maven2/org/ow2/asm/asm/9.10.1/asm-9.10.1.jar",
            "https://launcher-meta.modrinth.com/maven/org/ow2/asm/asm/9.10.1/asm-9.10.1.jar",
            "https://libraries.minecraft.net/org/ow2/asm/asm/9.10.1/asm-9.10.1.jar",
        ]),
    );
    assert_eq!(
        legacy_library_download_urls(
            Some("https://launcher-meta.modrinth.com/maven/"),
            "com/modrinth/daedalus/forge-installer-extracts/1.20.1-47.4.20/forge-installer-extracts-1.20.1-47.4.20-client.lzma",
        ),
        urls(&[
            "https://launcher-meta.modrinth.com/maven/com/modrinth/daedalus/forge-installer-extracts/1.20.1-47.4.20/forge-installer-extracts-1.20.1-47.4.20-client.lzma",
            "https://libraries.minecraft.net/com/modrinth/daedalus/forge-installer-extracts/1.20.1-47.4.20/forge-installer-extracts-1.20.1-47.4.20-client.lzma",
        ]),
    );
    assert_eq!(legacy_library_content_validation("library.jar"), ContentValidation::Jar);
    assert_eq!(legacy_library_content_validation("library.lzma"), ContentValidation::Unchecked);
}

#[test]
fn legacy_scala_libraries_use_maven_central() {
    let artifact_path = "org/scala-lang/plugins/scala-continuations-library_2.11/1.0.2/scala-continuations-library_2.11-1.0.2.jar";
    let expected = urls(&[
        "https://repo.maven.apache.org/maven2/org/scala-lang/plugins/scala-continuations-library_2.11/1.0.2/scala-continuations-library_2.11-1.0.2.jar",
        "https://launcher-meta.modrinth.com/maven/org/scala-lang/plugins/scala-continuations-library_2.11/1.0.2/scala-continuations-library_2.11-1.0.2.jar",
        "https://libraries.minecraft.net/org/scala-lang/plugins/scala-continuations-library_2.11/1.0.2/scala-continuations-library_2.11-1.0.2.jar",
    ]);

    assert_eq!(
        legacy_library_download_urls(Some("https://launcher-meta.modrinth.com/maven"), artifact_path),
        expected,
    );
    assert_eq!(
        legacy_library_download_urls(Some("https://launcher-meta.modrinth.com/maven/"), artifact_path),
        expected,
    );
}

#[test]
fn historical_forge_scala_modules_keep_archived_coordinates() {
    let checksums = vec![
        "7a80ec00aec122fba7cd4e0d4cdd87ff7e4cb6d0".to_string(),
        "62736b01689d56b6d09a0164b7ef9da2b0b9633d".to_string(),
    ];
    assert_eq!(
        legacy_library_sha1(Some(&checksums)),
        Some("7a80ec00aec122fba7cd4e0d4cdd87ff7e4cb6d0".to_string()),
    );

    for artifact_path in [
        "org/scala-lang/scala-parser-combinators_2.11/1.0.1/scala-parser-combinators_2.11-1.0.1.jar",
        "org/scala-lang/scala-swing_2.11/1.0.1/scala-swing_2.11-1.0.1.jar",
        "org/scala-lang/scala-xml_2.11/1.0.2/scala-xml_2.11-1.0.2.jar",
    ] {
        assert_eq!(
            legacy_library_download_urls(Some("https://launcher-meta.modrinth.com/maven/"), artifact_path),
            Some(vec![
                format!("{FORGE_MAVEN}/{artifact_path}"),
                format!("{LAUNCHER_META_MAVEN}/{artifact_path}"),
                format!("{LIBRARIES_MAVEN}/{artifact_path}"),
            ]),
        );
    }
}

#[test]
fn legacy_forge_maven_central_groups_use_maven_central() {
    for artifact_path in [
        "org/jline/jline/3.5.1/jline-3.5.1.jar",
        "jline/jline/2.13/jline-2.13.jar",
        "net/java/dev/jna/jna/4.4.0/jna-4.4.0.jar",
        "com/typesafe/akka/akka-actor_2.11/2.3.3/akka-actor_2.11-2.3.3.jar",
        "com/typesafe/config/1.2.1/config-1.2.1.jar",
    ] {
        assert_eq!(
            legacy_library_download_urls(Some("https://launcher-meta.modrinth.com/maven"), artifact_path),
            Some(vec![
                format!("{MAVEN_CENTRAL}/{artifact_path}"),
                format!("{LAUNCHER_META_MAVEN}/{artifact_path}"),
                format!("{LIBRARIES_MAVEN}/{artifact_path}"),
            ]),
        );
    }
}

#[test]
fn legacy_maven_download_uses_trusted_declared_paths() {
    assert_eq!(
        legacy_library_download_urls(
            Some("https://launcher-meta.modrinth.com/maven/"),
            "example/unknown/1/unknown-1.jar",
        ),
        urls(&[
            "https://launcher-meta.modrinth.com/maven/example/unknown/1/unknown-1.jar",
            "https://libraries.minecraft.net/example/unknown/1/unknown-1.jar",
        ]),
    );
    assert_eq!(
        legacy_library_download_urls(Some("https://maven.minecraftforge.net"), "example/unknown/1/unknown-1.jar"),
        urls(&[
            "https://maven.minecraftforge.net/example/unknown/1/unknown-1.jar",
            "https://libraries.minecraft.net/example/unknown/1/unknown-1.jar",
        ]),
    );
    assert_eq!(
        legacy_library_download_urls(
            Some("https://example.invalid/maven"),
            "net/fabricmc/intermediary/1.21.1/intermediary-1.21.1.jar",
        ),
        urls(&[
            "https://example.invalid/maven/net/fabricmc/intermediary/1.21.1/intermediary-1.21.1.jar",
            "https://maven.fabricmc.net/net/fabricmc/intermediary/1.21.1/intermediary-1.21.1.jar",
            "https://libraries.minecraft.net/net/fabricmc/intermediary/1.21.1/intermediary-1.21.1.jar",
        ]),
    );
    for repository in [
        "http://example.invalid/maven",
        "https://user@example.invalid/maven",
        "https://example.invalid/maven?token=secret",
    ] {
        assert_eq!(legacy_library_download_urls(Some(repository), "example/unknown/1/unknown-1.jar"), None);
    }
    for artifact_path in ["/example/unknown.jar", "../example/unknown.jar", "example\\unknown.jar"] {
        assert_eq!(legacy_library_download_urls(Some("https://example.invalid/maven"), artifact_path), None);
    }
}

#[test]
fn legacy_native_classified_path_downloads_from_declared_repository() {
    let artifact_path = classified_artifact_path(
        "org/lwjgl/lwjgl/lwjgl-platform/2.9.4+legacyfabric.17/lwjgl-platform-2.9.4+legacyfabric.17.jar",
        "natives-linux",
    );
    assert_eq!(
        artifact_path,
        "org/lwjgl/lwjgl/lwjgl-platform/2.9.4+legacyfabric.17/lwjgl-platform-2.9.4+legacyfabric.17-natives-linux.jar"
    );
    assert_eq!(
        legacy_library_download_urls(Some("https://maven.legacyfabric.net/"), &artifact_path).unwrap()[0],
        format!("https://maven.legacyfabric.net/{artifact_path}")
    );
    assert_eq!(classified_artifact_path("a/b/c", "x"), "a/b/c-x");
}

#[test]
fn canonical_urls_without_repository() {
    assert!(legacy_library_canonical_urls("example/unknown/1/unknown-1.jar").is_empty());
    assert_eq!(
        legacy_library_canonical_urls("net/fabricmc/x/1/x-1.jar"),
        vec!["https://maven.fabricmc.net/net/fabricmc/x/1/x-1.jar".to_string()]
    );
    assert_eq!(
        legacy_library_download_urls(None, "example/unknown/1/unknown-1.jar"),
        urls(&["https://libraries.minecraft.net/example/unknown/1/unknown-1.jar"])
    );
}

#[test]
fn lwjgl_mirror_is_added_for_machina_releases() {
    let url = "https://github.com/MinecraftMachina/lwjgl/releases/download/2.9.4-20150209-mmachina.2/lwjgl-platform.jar";
    assert_eq!(
        minecraft_library_mirrors(url),
        vec![
            url.to_string(),
            "https://libraries.minecraft.net/org/lwjgl/lwjgl/lwjgl-platform/2.9.4-nightly-20150209/lwjgl-platform.jar".to_string(),
        ]
    );
    assert_eq!(minecraft_library_mirrors("https://example.com/x.jar"), vec!["https://example.com/x.jar".to_string()]);
}

#[test]
fn sha1_needs_forty_hex_digits() {
    let checksums = vec!["xyz".to_string(), "62736B01689D56B6D09A0164B7EF9DA2B0B9633D".to_string()];
    assert_eq!(legacy_library_sha1(Some(&checksums)), Some("62736B01689D56B6D09A0164B7EF9DA2B0B9633D".to_string()));
    assert_eq!(legacy_library_sha1(None), None);
    assert_eq!(legacy_library_sha1(Some(&vec!["abc".to_string()])), None);
}

#[test]
fn derived_version_cache_marker_contents() {
    assert!(!derived_version_cache_is_current(None));
    assert!(!derived_version_cache_is_current(Some("0")));
    assert!(derived_version_cache_is_current(Some("1")));
    assert!(derived_version_cache_is_current(Some(" 1\n")));
    assert!(should_download(false, false));
    assert!(should_download(true, true));
    assert!(!should_download(true, false));
}

#[test]
fn duplicate_native_archives_download_once() {
    let hashes = vec![
        Some("aaa".to_string()),
        None,
        Some("aaa".to_string()),
        Some(String::new()),
        Some(String::new()),
        Some("bbb".to_string()),
    ];
    assert_eq!(first_native_archives(&hashes), vec![true, true, false, true, true, true]);
}

#[test]
fn progress_reports_are_throttled_and_rolled_back() {
    let (mut progress, first) = MinecraftDownloadProgress::new(100_000_000);
    assert_eq!(first, Some(ProgressUpdate { current: 0, total: 100_000_000 }));
    // Half a percent of 100 MB is 500 kB; smaller steps are not reported.
    assert_eq!(progress.add_bytes(100_000), None);
    assert_eq!(progress.add_bytes(400_000), Some(ProgressUpdate { current: 500_000, total: 100_000_000 }));
    assert_eq!(progress.sub_bytes(200_000), Some(ProgressUpdate { current: 300_000, total: 100_000_000 }));
    assert_eq!(progress.sub_bytes(1_000_000), Some(ProgressUpdate { current: 0, total: 100_000_000 }));
    assert_eq!(progress.current, 0);
    assert_eq!(progress.add_total(0), None);
    assert_eq!(progress.add_total(10), Some(ProgressUpdate { current: 0, total: 100_000_010 }));
    assert_eq!(progress.observe_transfer(0, 600_000), Some(ProgressUpdate { current: 600_000, total: 100_000_010 }));
    assert_eq!(progress.observe_transfer(600_000, 100_000), Some(ProgressUpdate { current: 100_000, total: 100_000_010 }));
    assert_eq!(progress.complete_transfer(Some(700_000), 100_000), Some(ProgressUpdate { current: 700_000, total: 100_000_010 }));
    assert_eq!(progress.complete_transfer(Some(10), 100_000), None);
    assert_eq!(progress.current, 700_000);
    assert_eq!(progress.finish(), None);
    progress.record_download_result(0, 2, "mirror".to_string());
    assert_eq!(progress.finish(), None);
    progress.record_download_result(1, 1, "official".to_string());
    assert_eq!(progress.finish(), Some(("official".to_string(), 3)));
}

#[test]
fn small_totals_report_every_quarter_megabyte() {
    let (mut progress, _) = MinecraftDownloadProgress::new(1_000_000);
    assert_eq!(progress.add_bytes(262_143), None);
    assert_eq!(progress.add_bytes(1), Some(ProgressUpdate { current: 262_144, total: 1_000_000 }));
    assert_eq!(progress.add_bytes(2_000_000), Some(ProgressUpdate { current: 1_000_000, total: 1_000_000 }));
    let (mut empty, none) = MinecraftDownloadProgress::new(0);
    assert_eq!(none, None);
    assert_eq!(empty.add_bytes(5), None);
}

#[test]
fn rolled_back_attempt_restores_the_count() {
    let (mut progress, _) = MinecraftDownloadProgress::new(10_000_000);
    progress.add_bytes(1_000);
    progress.add_bytes(5_000);
    progress.sub_bytes(5_000);
    assert_eq!(progress.current, 1_000);
}

#[test]
fn legacy_candidates_are_distinct() {
    let urls = legacy_library_download_urls(
        Some("https://libraries.minecraft.net/"),
        "net/minecraft/launchwrapper/1.12/launchwrapper-1.12.jar",
    )
    .unwrap();
    assert_eq!(
        urls,
        vec!["https://libraries.minecraft.net/net/minecraft/launchwrapper/1.12/launchwrapper-1.12.jar".to_string()]
    );
}

#[test]
fn legacy_native_library_uses_platform_classifier_without_downloads_block() {
    // "natives": {"linux": "natives-linux", "osx": "natives-osx", "windows": "natives-windows"}
    let classifier = native_classifier(None, Some("natives-linux"), "64").unwrap();
    let artifact_path = classified_artifact_path(
        "org/lwjgl/lwjgl/lwjgl-platform/2.9.4+legacyfabric.17/lwjgl-platform-2.9.4+legacyfabric.17.jar",
        &classifier,
    );
    assert_eq!(
        artifact_path,
        format!(
            "org/lwjgl/lwjgl/lwjgl-platform/2.9.4+legacyfabric.17/lwjgl-platform-2.9.4+legacyfabric.17-{classifier}.jar"
        )
    );
    assert_eq!(
        legacy_library_download_urls(Some("https://maven.legacyfabric.net/"), &artifact_path).unwrap()[0],
        format!("https://maven.legacyfabric.net/{artifact_path}")
    );
}

#[test]
fn odd_but_safe_paths_still_get_candidates() {
    // The resolved URL percent-encodes the space; the plain one keeps it.
    let urls = legacy_library_download_urls(None, "a b/c%20d/e.jar").unwrap();
    assert_eq!(
        urls,
        vec![
            "https://libraries.minecraft.net/a%20b/c%20d/e.jar".to_string(),
            "https://libraries.minecraft.net/a b/c%20d/e.jar".to_string(),
        ]
    );
    assert_eq!(legacy_library_download_urls(None, "a//b.jar"), None);
    assert_eq!(legacy_library_download_urls(None, "a/./b.jar"), None);
}
