use theseus::download::{derived_version_cache_is_current, DERIVED_VERSION_CACHE_FORMAT};
use theseus::install_plan::{
    first_candidate, local_native_archive, missing_native_archive_message, no_safe_repository_message,
    NativeArchive,
};
use theseus::download::ContentValidation;
use theseus::install_plan::{
    asset_url, missing_asset_bytes, missing_initial_minecraft_bytes, missing_library_bytes,
    plan_asset, plan_library_download, AssetState, AssetStep, DeclaredDownload, LibraryFacts,
    LibraryStep, SingleFile,
};
use theseus::version_info::{
    fallback_version_source, normalize_version_profile, restore_legacy_arguments,
    reuse_cached_version_info, version_info_id, wants_legacy_arguments, JavaVersion,
    ManifestVersion,
};

fn declared(url: &str, sha1: &str, size: u64) -> DeclaredDownload {
    DeclaredDownload { url: url.to_string(), sha1: sha1.to_string(), size }
}

fn library(artifact_path: &str) -> LibraryFacts {
    LibraryFacts {
        rules_allow: true,
        downloadable: true,
        has_natives: false,
        native_classifier: None,
        native_download: None,
        artifact_path: artifact_path.to_string(),
        artifact_present: false,
        artifact_download: None,
        repository: None,
        checksums: None,
    }
}

#[test]
fn declared_artifacts_are_fetched_unless_present() {
    let mut lib = library("com/example/a/1/a-1.jar");
    lib.artifact_download = Some(declared("https://libraries.minecraft.net/a.jar", "abc", 12));
    match plan_library_download(&lib, false) {
        LibraryStep::Declared { url, sha1, size } => {
            assert_eq!(url, "https://libraries.minecraft.net/a.jar");
            assert_eq!(sha1, "abc");
            assert_eq!(size, 12);
        }
        _ => panic!("expected the declared download"),
    }
    lib.artifact_present = true;
    assert!(matches!(plan_library_download(&lib, false), LibraryStep::Skip));
    assert!(matches!(plan_library_download(&lib, true), LibraryStep::Declared { .. }));
    lib.rules_allow = false;
    assert!(matches!(plan_library_download(&lib, true), LibraryStep::Skip));
}

#[test]
fn legacy_artifacts_come_from_trusted_repositories() {
    let mut lib = library("org/scala-lang/scala-xml_2.11/1.0.2/scala-xml_2.11-1.0.2.jar");
    lib.artifact_download = Some(declared("", "ignored", 5));
    lib.repository = Some("https://launcher-meta.modrinth.com/maven/".to_string());
    lib.checksums = Some(vec!["7a80ec00aec122fba7cd4e0d4cdd87ff7e4cb6d0".to_string()]);
    match plan_library_download(&lib, false) {
        LibraryStep::Repository { urls, sha1, validation } => {
            assert_eq!(urls[0], "https://maven.minecraftforge.net/org/scala-lang/scala-xml_2.11/1.0.2/scala-xml_2.11-1.0.2.jar");
            assert_eq!(urls.len(), 3);
            assert_eq!(sha1.as_deref(), Some("7a80ec00aec122fba7cd4e0d4cdd87ff7e4cb6d0"));
            assert_eq!(validation, ContentValidation::Jar);
        }
        _ => panic!("expected repository candidates"),
    }
    lib.repository = Some("http://example.invalid/maven".to_string());
    assert!(matches!(plan_library_download(&lib, false), LibraryStep::NoSafeRepository));
}

#[test]
fn natives_use_the_cache_or_the_classified_artifact() {
    let mut lib = library("org/lwjgl/lwjgl/lwjgl-platform/2.9.4/lwjgl-platform-2.9.4.jar");
    lib.has_natives = true;
    assert!(matches!(plan_library_download(&lib, false), LibraryStep::Skip));
    lib.native_classifier = Some("natives-linux".to_string());
    lib.repository = Some("https://maven.legacyfabric.net/".to_string());
    match plan_library_download(&lib, false) {
        LibraryStep::RepositoryNative { artifact_path, urls } => {
            assert_eq!(artifact_path, "org/lwjgl/lwjgl/lwjgl-platform/2.9.4/lwjgl-platform-2.9.4-natives-linux.jar");
            assert_eq!(urls[0], format!("https://maven.legacyfabric.net/{artifact_path}"));
        }
        _ => panic!("expected the classified artifact"),
    }
    lib.native_download = Some(declared("https://example.com/n.jar", "deadbeef", 9));
    lib.artifact_present = true;
    match plan_library_download(&lib, false) {
        LibraryStep::CachedNative { sha1, size, .. } => {
            assert_eq!(sha1, "deadbeef");
            assert_eq!(size, 9);
        }
        _ => panic!("expected the cached native archive"),
    }
}

#[test]
fn announced_library_bytes_count_declared_downloads() {
    let mut a = library("a.jar");
    a.artifact_download = Some(declared("https://x/a.jar", "1", 100));
    let mut b = library("b.jar");
    b.artifact_download = Some(declared("https://x/b.jar", "2", 20));
    b.artifact_present = true;
    let mut c = library("c.jar");
    c.has_natives = true;
    c.native_classifier = Some("natives-linux".to_string());
    c.native_download = Some(declared("https://x/c.jar", "3", 3));
    let d = library("d.jar");
    let libs = vec![a, b, c, d];
    assert_eq!(missing_library_bytes(&libs, false), 103);
    assert_eq!(missing_library_bytes(&libs, true), 123);
}

#[test]
fn assets_are_batched_copied_or_skipped() {
    assert_eq!(plan_asset(false, false, true, false, false), AssetStep::Batch { legacy_too: true });
    assert_eq!(plan_asset(false, true, true, false, false), AssetStep::Batch { legacy_too: false });
    assert_eq!(plan_asset(false, false, false, false, true), AssetStep::PerFile);
    assert_eq!(plan_asset(true, false, true, false, false), AssetStep::LegacyCopy);
    assert_eq!(plan_asset(true, false, false, false, false), AssetStep::Skip);
    assert_eq!(plan_asset(true, true, false, true, false), AssetStep::Batch { legacy_too: true });
    let assets = vec![
        AssetState { size: 1, object_present: false, legacy_present: true },
        AssetState { size: 10, object_present: true, legacy_present: false },
        AssetState { size: 100, object_present: true, legacy_present: true },
    ];
    assert_eq!(missing_asset_bytes(&assets, false, false), 1);
    assert_eq!(missing_asset_bytes(&assets, true, false), 11);
    assert_eq!(missing_asset_bytes(&assets, false, true), 111);
}

#[test]
fn asset_urls_use_the_hash_prefix() {
    assert_eq!(
        asset_url("bdf48ef6b5d0d23bbb02e17d04865216179f510a"),
        "https://resources.download.minecraft.net/bd/bdf48ef6b5d0d23bbb02e17d04865216179f510a"
    );
    assert_eq!(asset_url("éa"), "https://resources.download.minecraft.net/é/éa");
}

#[test]
fn version_profiles_are_named_and_reused() {
    assert_eq!(version_info_id("1.20.1", None), "1.20.1");
    assert_eq!(version_info_id("1.20.1", Some("47.2.20")), "1.20.1-47.2.20");
    assert!(reuse_cached_version_info(true, None, false, false));
    assert!(!reuse_cached_version_info(true, Some(true), false, true));
    assert!(reuse_cached_version_info(true, Some(false), true, true));
    assert!(!reuse_cached_version_info(true, None, true, false));
    assert!(!reuse_cached_version_info(false, None, false, true));
}

#[test]
fn fallback_metadata_needs_a_different_url() {
    let versions = vec![
        ManifestVersion { id: "1.21".to_string(), url: "https://a/1.21.json".to_string(), sha1: "x".to_string() },
        ManifestVersion { id: "1.20".to_string(), url: "https://b/1.20.json".to_string(), sha1: "y".to_string() },
    ];
    assert_eq!(
        fallback_version_source("https://primary/1.20.json", "1.20", &versions),
        Some(("https://b/1.20.json".to_string(), "y".to_string()))
    );
    assert_eq!(fallback_version_source("https://a/1.21.json", "1.21", &versions), None);
    assert_eq!(fallback_version_source("https://a/1.19.json", "1.19", &versions), None);
}

#[test]
fn liteloader_profiles_are_pinned_to_java_8() {
    let names = vec!["com.mumfrey:liteloader:1.12.2-SNAPSHOT".to_string()];
    let mut java = Some(JavaVersion { component: "java-runtime-gamma".to_string(), major_version: 17 });
    assert!(normalize_version_profile(&[], &names, &mut java));
    let pinned = java.expect("java");
    assert_eq!(pinned.component, "jre-legacy");
    assert_eq!(pinned.major_version, 8);

    let mut java8 = Some(JavaVersion { component: "custom".to_string(), major_version: 8 });
    assert!(!normalize_version_profile(&[], &names, &mut java8));
    assert_eq!(java8.expect("java").component, "custom");

    let mut none = None;
    assert!(normalize_version_profile(&["old".to_string()], &["a:b:c".to_string()], &mut none));
    assert!(none.is_none());
}

#[test]
fn legacy_arguments_are_restored_only_when_missing() {
    assert!(wants_legacy_arguments(true, &None));
    let mut args = None;
    assert!(restore_legacy_arguments(true, &mut args, Some("--username x".to_string())));
    assert_eq!(args.as_deref(), Some("--username x"));
    assert!(!restore_legacy_arguments(true, &mut args, Some("other".to_string())));
    assert_eq!(args.as_deref(), Some("--username x"));
    let mut vanilla = None;
    assert!(!restore_legacy_arguments(false, &mut vanilla, Some("a".to_string())));
    assert!(vanilla.is_none());
}

#[test]
fn initial_bytes_cover_client_index_log_config_and_libraries() {
    let mut lib = library("a.jar");
    lib.artifact_download = Some(declared("https://x/a.jar", "1", 1000));
    let libs = vec![lib];
    assert_eq!(
        missing_initial_minecraft_bytes(
            Some(SingleFile { size: 10, present: false }),
            SingleFile { size: 20, present: true },
            Some(SingleFile { size: 5, present: false }),
            &libs,
            false,
        ),
        Some(1015)
    );
    assert_eq!(
        missing_initial_minecraft_bytes(
            Some(SingleFile { size: 10, present: true }),
            SingleFile { size: 20, present: true },
            None,
            &libs,
            true,
        ),
        Some(1030)
    );
    assert_eq!(
        missing_initial_minecraft_bytes(None, SingleFile { size: 20, present: false }, None, &libs, false),
        None
    );
}

#[test]
fn library_errors_and_native_archives() {
    assert_eq!(
        no_safe_repository_message("a:b:1", true),
        "No safe Maven repository is known for required native library a:b:1"
    );
    assert_eq!(
        no_safe_repository_message("a:b:1", false),
        "No safe Maven repository is known for required library a:b:1"
    );
    assert_eq!(first_candidate(&[]), Err("No trusted download URL is available".to_string()));
    assert_eq!(first_candidate(&["u".to_string(), "v".to_string()]), Ok("u".to_string()));
    assert_eq!(
        missing_native_archive_message("lwjgl", "/x/y.jar"),
        "Native library archive for lwjgl is missing at /x/y.jar; repair or reinstall the instance"
    );
    let mut lib = library("org/lwjgl/lwjgl-platform/2.9/lwjgl-platform-2.9.jar");
    match local_native_archive(&lib, "natives-linux") {
        NativeArchive::Libraries { artifact_path } => {
            assert_eq!(artifact_path, "org/lwjgl/lwjgl-platform/2.9/lwjgl-platform-2.9-natives-linux.jar")
        }
        NativeArchive::Cached { .. } => panic!("expected the libraries directory"),
    }
    lib.native_download = Some(declared("https://x/n.jar", "deadbeef", 1));
    match local_native_archive(&lib, "natives-linux") {
        NativeArchive::Cached { file_name } => assert_eq!(file_name, "deadbeef.jar"),
        NativeArchive::Libraries { .. } => panic!("expected the native cache"),
    }
}

#[test]
fn saved_profile_with_marker_is_reused() {
    let marker_current = derived_version_cache_is_current(Some(DERIVED_VERSION_CACHE_FORMAT));
    assert!(reuse_cached_version_info(true, None, true, marker_current));
    assert!(reuse_cached_version_info(true, Some(false), true, marker_current));
    assert!(!reuse_cached_version_info(true, Some(true), true, marker_current));
}
