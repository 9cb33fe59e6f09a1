use std::io::Write;

use theseus::jar::{read_embedded_metadata, MODS_TOML, NEOFORGE_MODS_TOML};
use theseus::mod_metadata::{
    extract_contact_url, extract_mod_metadata, fabric_icon_path, is_env_dependency_id,
    merge_authors, metadata_from_mcmod_info, parse_u64, try_fabric, try_quilt, FabricAuthorOrArray,
    FabricIcon, FabricModJson, McmodInfoEntry, ParsedMetadataFiles,
};
use theseus::mods_toml::{
    is_client_only_forge_mod, manifest_implementation_version, mods_toml_declares_client_only,
    resolve_toml_version, try_toml_path, ForgeDependencyEntry, ModsToml, ModsTomlEntry,
};

fn build_jar(entries: &[(&str, &str)]) -> Vec<u8> {
    let mut buffer = std::io::Cursor::new(Vec::new());
    {
        let mut archive = zip::ZipWriter::new(&mut buffer);
        let options = zip::write::FileOptions::<()>::default();
        for (name, content) in entries {
            archive.start_file(*name, options).expect("start zip entry");
            archive.write_all(content.as_bytes()).expect("write zip entry");
        }
        archive.finish().expect("finish zip");
    }
    buffer.into_inner()
}

fn entry(mod_id: &str) -> ModsTomlEntry {
    ModsTomlEntry {
        mod_id: Some(mod_id.to_string()),
        display_name: None,
        version: None,
        description: None,
        authors: None,
        logo_file: None,
        display_url: None,
        credits: None,
        side: None,
    }
}

fn toml_with(mods: Vec<ModsTomlEntry>) -> ModsToml {
    ModsToml { mod_loader: None, loader_version: None, mods: Some(mods), dependencies: None }
}

fn dependency(mod_id: &str, side: Option<&str>) -> ForgeDependencyEntry {
    ForgeDependencyEntry {
        mod_id: Some(mod_id.to_string()),
        mandatory: Some(true),
        version_range: None,
        ordering: None,
        side: side.map(str::to_string),
    }
}

#[test]
fn forge_placeholder_version_resolves_from_manifest() {
    let jar = build_jar(&[
        (
            "META-INF/MANIFEST.MF",
            "Manifest-Version: 1.0\nImplementation-Title: Example\nImplementation-Version: 1.2.3\n",
        ),
        (
            "META-INF/mods.toml",
            "modLoader = \"javafml\"\nloaderVersion = \"[4,)\"\n\n[[mods]]\nmodId = \"example\"\ndisplayName = \"Example\"\nversion = \"${file.jarVersion}\"\n",
        ),
    ]);
    let mut example = entry("example");
    example.display_name = Some("Example".to_string());
    example.version = Some("${file.jarVersion}".to_string());
    let parsed = ModsToml {
        mod_loader: Some("javafml".to_string()),
        loader_version: Some("[4,)".to_string()),
        mods: Some(vec![example]),
        dependencies: None,
    };

    let meta = try_toml_path(&jar, MODS_TOML, &parsed).expect("mod metadata");
    assert_eq!(meta.mod_id, "example");
    assert_eq!(meta.version.as_deref(), Some("1.2.3"));
    assert_eq!(meta.loader.as_deref(), Some("forge"));
    assert_eq!(meta.loader_version.as_deref(), Some("[4,)"));
}

#[test]
fn resolved_mods_toml_version_is_kept_as_is() {
    let jar = build_jar(&[
        ("META-INF/MANIFEST.MF", "Manifest-Version: 1.0\nImplementation-Version: 9.9.9\n"),
        ("META-INF/mods.toml", "[[mods]]\nmodId = \"example\"\nversion = \"1.0.0\"\n"),
    ]);
    let mut example = entry("example");
    example.version = Some("1.0.0".to_string());
    let meta = try_toml_path(&jar, MODS_TOML, &toml_with(vec![example])).expect("mod metadata");
    assert_eq!(meta.version.as_deref(), Some("1.0.0"));
}

#[test]
fn placeholder_version_without_manifest_attribute_is_kept() {
    let jar = build_jar(&[(
        "META-INF/mods.toml",
        "[[mods]]\nmodId = \"example\"\nversion = \"${file.jarVersion}\"\n",
    )]);
    let mut example = entry("example");
    example.version = Some("${file.jarVersion}".to_string());
    let meta = try_toml_path(&jar, MODS_TOML, &toml_with(vec![example])).expect("mod metadata");
    assert_eq!(meta.version.as_deref(), Some("${file.jarVersion}"));
}

#[test]
fn forge_mod_declared_client_side_is_detected() {
    let jar = build_jar(&[(
        "META-INF/mods.toml",
        "[[mods]]\nmodId = \"etf\"\ndisplayName = \"ETF\"\nside = \"CLIENT\"\n",
    )]);
    let mut etf = entry("etf");
    etf.side = Some("CLIENT".to_string());
    assert!(is_client_only_forge_mod(&jar, &[toml_with(vec![etf])]));
}

#[test]
fn forge_mod_with_both_side_is_not_client_only() {
    let jar = build_jar(&[(
        "META-INF/mods.toml",
        "[[mods]]\nmodId = \"sodium\"\ndisplayName = \"Sodium\"\nside = \"BOTH\"\n",
    )]);
    let mut sodium = entry("sodium");
    sodium.side = Some("BOTH".to_string());
    assert!(!is_client_only_forge_mod(&jar, &[toml_with(vec![sodium])]));
}

#[test]
fn forge_mod_without_side_is_not_client_only() {
    let jar = build_jar(&[(
        "META-INF/mods.toml",
        "[[mods]]\nmodId = \"sodium\"\ndisplayName = \"Sodium\"\n",
    )]);
    assert!(!is_client_only_forge_mod(&jar, &[toml_with(vec![entry("sodium")])]));
}

#[test]
fn forge_mod_with_transformer_plugin_is_detected() {
    let jar = build_jar(&[
        ("META-INF/mods.toml", "[[mods]]\nmodId = \"etf\"\ndisplayName = \"ETF\"\nside = \"BOTH\"\n"),
        ("META-INF/services/cpw.mods.modlauncher.api.ITransformer", "com.example.etf.Transformer\n"),
    ]);
    let mut etf = entry("etf");
    etf.side = Some("BOTH".to_string());
    assert!(is_client_only_forge_mod(&jar, &[toml_with(vec![etf])]));
}

#[test]
fn forge_mod_with_legacy_coremod_is_detected() {
    let jar = build_jar(&[
        ("META-INF/mods.toml", "[[mods]]\nmodId = \"etf\"\ndisplayName = \"ETF\"\nside = \"BOTH\"\n"),
        ("META-INF/coremods.json", "{}\n"),
    ]);
    let mut etf = entry("etf");
    etf.side = Some("BOTH".to_string());
    assert!(is_client_only_forge_mod(&jar, &[toml_with(vec![etf])]));
}

#[test]
fn forge_mod_with_mixin_only_is_not_client_only() {
    let jar = build_jar(&[
        ("META-INF/mods.toml", "[[mods]]\nmodId = \"modernfix\"\ndisplayName = \"ModernFix\"\nside = \"BOTH\"\n"),
        ("modernfix.mixins.json", "{\"package\": \"com.example.mixin\"}\n"),
    ]);
    let mut modernfix = entry("modernfix");
    modernfix.side = Some("BOTH".to_string());
    assert!(!is_client_only_forge_mod(&jar, &[toml_with(vec![modernfix])]));
}

#[test]
fn forge_mod_with_client_game_dependency_is_detected() {
    // Entity Texture Features: `[[mods]]` has no `side`, but its `minecraft`
    // and `forge` dependencies are `side = "CLIENT"`.
    let jar = build_jar(&[(
        "META-INF/mods.toml",
        "[[mods]]\nmodId = \"entity_texture_features\"\ndisplayName = \"ETF\"\n\n\
         [[dependencies.entity_texture_features]]\nmodId = \"forge\"\nmandatory = true\nversionRange = \"[33,)\"\nside = \"CLIENT\"\n\n\
         [[dependencies.entity_texture_features]]\nmodId = \"minecraft\"\nmandatory = true\nversionRange = \"[1,)\"\nside = \"CLIENT\"\n",
    )]);
    let mut etf = entry("entity_texture_features");
    etf.display_name = Some("ETF".to_string());
    let mut forge = dependency("forge", Some("CLIENT"));
    forge.version_range = Some("[33,)".to_string());
    let mut minecraft = dependency("minecraft", Some("CLIENT"));
    minecraft.version_range = Some("[1,)".to_string());
    let parsed = ModsToml {
        mod_loader: None,
        loader_version: None,
        mods: Some(vec![etf]),
        dependencies: Some(vec![("entity_texture_features".to_string(), vec![forge, minecraft])]),
    };
    assert!(is_client_only_forge_mod(&jar, &[parsed]));
}

#[test]
fn forge_mod_with_both_game_dependency_is_not_client_only() {
    let jar = build_jar(&[(
        "META-INF/mods.toml",
        "[[mods]]\nmodId = \"sodium\"\ndisplayName = \"Sodium\"\n\n\
         [[dependencies.sodium]]\nmodId = \"minecraft\"\nversionRange = \"[1.20,)\"\n",
    )]);
    let mut sodium = entry("sodium");
    sodium.display_name = Some("Sodium".to_string());
    let mut minecraft = dependency("minecraft", None);
    minecraft.mandatory = None;
    minecraft.version_range = Some("[1.20,)".to_string());
    let parsed = ModsToml {
        mod_loader: None,
        loader_version: None,
        mods: Some(vec![sodium]),
        dependencies: Some(vec![("sodium".to_string(), vec![minecraft])]),
    };
    assert!(!is_client_only_forge_mod(&jar, &[parsed]));
}

#[test]
fn side_and_game_ids_compare_without_case() {
    let mut lower = entry("a");
    lower.side = Some("client".to_string());
    assert!(mods_toml_declares_client_only(&toml_with(vec![lower])));
    let parsed = ModsToml {
        mod_loader: None,
        loader_version: None,
        mods: None,
        dependencies: Some(vec![("a".to_string(), vec![dependency("NeoForge", Some("Client"))])]),
    };
    assert!(mods_toml_declares_client_only(&parsed));
    let other = ModsToml {
        mod_loader: None,
        loader_version: None,
        mods: None,
        dependencies: Some(vec![("a".to_string(), vec![dependency("jei", Some("CLIENT"))])]),
    };
    assert!(!mods_toml_declares_client_only(&other));
}

#[test]
fn jar_metadata_files_are_read_by_name() {
    let jar = build_jar(&[
        ("META-INF/neoforge.mods.toml", "[[mods]]\n"),
        ("mcmod.info", "[]"),
    ]);
    let files = read_embedded_metadata(&jar);
    assert_eq!(files.neoforge_mods_toml.as_deref(), Some("[[mods]]\n"));
    assert_eq!(files.mcmod_info.as_deref(), Some("[]"));
    assert_eq!(files.mods_toml, None);
    assert_eq!(files.fabric_mod_json, None);
    let not_a_zip = read_embedded_metadata(b"not a zip");
    assert_eq!(not_a_zip.mcmod_info, None);
    assert!(!is_client_only_forge_mod(b"not a zip", &[]));
}

#[test]
fn neoforge_toml_metadata_lists_required_dependencies() {
    let jar = build_jar(&[("META-INF/neoforge.mods.toml", "")]);
    let mut first = entry("x");
    first.mod_id = None;
    let mut second = entry("sodium");
    second.authors = Some(" JellySquid , , IMS ".to_string());
    second.display_url = Some("https://example.com".to_string());
    second.logo_file = Some("icon.png".to_string());
    let mut optional = dependency("iris", None);
    optional.mandatory = Some(false);
    let mut minecraft = dependency("minecraft", None);
    minecraft.version_range = Some("[1.21,)".to_string());
    let mut lib = dependency("lib", None);
    lib.version_range = Some("1.0".to_string());
    let mut unset = dependency("unset", None);
    unset.mandatory = None;
    let parsed = ModsToml {
        mod_loader: None,
        loader_version: Some("[21,)".to_string()),
        mods: Some(vec![first, second]),
        dependencies: Some(vec![
            ("other".to_string(), vec![dependency("nope", None)]),
            ("sodium".to_string(), vec![minecraft, optional, lib, unset, dependency("neoforge", None)]),
        ]),
    };
    let meta = try_toml_path(&jar, NEOFORGE_MODS_TOML, &parsed).expect("metadata");
    assert_eq!(meta.mod_id, "sodium");
    assert_eq!(meta.loader.as_deref(), Some("neoforge"));
    assert_eq!(meta.authors, vec!["JellySquid".to_string(), "IMS".to_string()]);
    assert_eq!(meta.minecraft_version.as_deref(), Some("[1.21,)"));
    assert_eq!(meta.url.as_deref(), Some("https://example.com"));
    assert_eq!(meta.icon_path.as_deref(), Some("icon.png"));
    let deps = meta.dependencies.expect("dependencies");
    let ids: Vec<&str> = deps.iter().map(|d| d.mod_id.as_str()).collect();
    assert_eq!(ids, vec!["lib", "unset"]);
    assert_eq!(deps[0].version_range.as_deref(), Some("1.0"));

    let empty = ModsToml { mod_loader: None, loader_version: None, mods: Some(vec![]), dependencies: None };
    assert!(try_toml_path(&jar, MODS_TOML, &empty).is_none());
    let mut no_deps = entry("solo");
    no_deps.version = Some("2.0".to_string());
    let meta = try_toml_path(&jar, MODS_TOML, &toml_with(vec![no_deps])).expect("metadata");
    assert_eq!(meta.dependencies.map(|d| d.len()), Some(0));
    assert_eq!(meta.minecraft_version, None);
}

#[test]
fn manifest_attribute_comes_from_the_main_section() {
    assert_eq!(
        manifest_implementation_version("Manifest-Version: 1.0\r\nImplementation-Version:  4.5 \r\n"),
        Some("4.5".to_string())
    );
    assert_eq!(
        manifest_implementation_version("Manifest-Version: 1.0\n\nName: a/b\nImplementation-Version: 7\n"),
        None
    );
    assert_eq!(manifest_implementation_version(""), None);
    let jar = build_jar(&[("META-INF/MANIFEST.MF", "Implementation-Version:   \n")]);
    assert_eq!(
        resolve_toml_version(Some("${version}".to_string()), &jar),
        Some("${version}".to_string())
    );
    assert_eq!(resolve_toml_version(None, &jar), None);
}

#[test]
fn mcmod_info_uses_the_first_entry() {
    let first = McmodInfoEntry {
        modid: Some("legacy".to_string()),
        name: Some("Legacy".to_string()),
        version: Some("1.0".to_string()),
        mcversion: Some("1.7.10".to_string()),
        description: None,
        url: None,
        logo_file: None,
        authors: Some(vec!["A".to_string(), "B".to_string()]),
    };
    let meta = metadata_from_mcmod_info(&[first]).expect("metadata");
    assert_eq!(meta.mod_id, "legacy");
    assert_eq!(meta.loader.as_deref(), Some("forge"));
    assert_eq!(meta.minecraft_version.as_deref(), Some("1.7.10"));
    assert_eq!(meta.authors, vec!["A".to_string(), "B".to_string()]);
    assert_eq!(meta.dependencies.map(|d| d.len()), Some(0));
    assert!(metadata_from_mcmod_info(&[]).is_none());
}

#[test]
fn authors_merge_names_in_order() {
    let primary = vec![
        FabricAuthorOrArray::Plain("a".to_string()),
        FabricAuthorOrArray::Object { name: None },
        FabricAuthorOrArray::Object { name: Some("b".to_string()) },
    ];
    let contributors = vec![FabricAuthorOrArray::Plain("c".to_string())];
    assert_eq!(
        merge_authors(&primary, &contributors),
        vec!["a".to_string(), "b".to_string(), "c".to_string()]
    );
}

#[test]
fn contact_url_prefers_homepage_then_sources() {
    let contact = vec![
        ("issues".to_string(), Some("https://issues".to_string())),
        ("sources".to_string(), Some("https://sources".to_string())),
        ("homepage".to_string(), None),
    ];
    assert_eq!(extract_contact_url(Some(&contact)), Some("https://sources".to_string()));
    let only_issues = vec![("email".to_string(), None), ("issues".to_string(), Some("https://issues".to_string()))];
    assert_eq!(extract_contact_url(Some(&only_issues)), Some("https://issues".to_string()));
    assert_eq!(extract_contact_url(None), None);
}

#[test]
fn environment_dependency_ids() {
    for id in ["minecraft", "java", "fabricloader", "quilt_loader", "forge", "neoforge", "fml"] {
        assert!(is_env_dependency_id(id));
    }
    assert!(!is_env_dependency_id("Minecraft"));
    assert!(!is_env_dependency_id("sodium"));
}

fn fabric(id: Option<&str>) -> FabricModJson {
    FabricModJson {
        id: id.map(str::to_string),
        name: Some("Sodium".to_string()),
        version: Some("0.5".to_string()),
        description: None,
        authors: vec![FabricAuthorOrArray::Plain("JellySquid".to_string())],
        contributors: vec![],
        contact: Some(vec![("homepage".to_string(), Some("https://home".to_string()))]),
        icon: Some(FabricIcon::Path("icon.png".to_string())),
        depends: Some(vec![
            ("minecraft".to_string(), Some(">=1.20".to_string())),
            ("fabricloader".to_string(), Some(">=0.15".to_string())),
            ("fabric-api".to_string(), Some("*".to_string())),
            ("lib".to_string(), None),
        ]),
    }
}

fn parsed_files() -> ParsedMetadataFiles {
    ParsedMetadataFiles { fabric_mod_json: None, quilt_mod_json: None, neoforge_mods_toml: None, mods_toml: None, mcmod_info: None }
}

#[test]
fn fabric_metadata_reads_identity_and_dependencies() {
    let meta = try_fabric(&fabric(Some("sodium"))).expect("metadata");
    assert_eq!(meta.mod_id, "sodium");
    assert_eq!(meta.loader.as_deref(), Some("fabric"));
    assert_eq!(meta.url.as_deref(), Some("https://home"));
    assert_eq!(meta.icon_path.as_deref(), Some("icon.png"));
    assert_eq!(meta.minecraft_version.as_deref(), Some(">=1.20"));
    assert_eq!(meta.loader_version.as_deref(), Some(">=0.15"));
    let deps = meta.dependencies.expect("dependencies");
    let ids: Vec<&str> = deps.iter().map(|d| d.mod_id.as_str()).collect();
    assert_eq!(ids, vec!["fabric-api", "lib"]);
    assert_eq!(deps[1].version_range, None);
    assert!(try_fabric(&fabric(None)).is_none());
    let quilt = try_quilt(&fabric(Some("q"))).expect("metadata");
    assert_eq!(quilt.loader.as_deref(), Some("quilt"));
    assert_eq!(quilt.loader_version, None);
}

#[test]
fn icon_maps_use_the_largest_size() {
    let icon = FabricIcon::Sizes(vec![
        ("16".to_string(), Some("small.png".to_string())),
        ("64".to_string(), Some("big.png".to_string())),
        ("+64".to_string(), Some("later.png".to_string())),
        ("128".to_string(), None),
        ("huge".to_string(), Some("x.png".to_string())),
        ("32".to_string(), Some("mid.png".to_string())),
    ]);
    assert_eq!(fabric_icon_path(&Some(icon)), Some("later.png".to_string()));
    assert_eq!(fabric_icon_path(&Some(FabricIcon::Other)), None);
    assert_eq!(fabric_icon_path(&None), None);
    assert_eq!(parse_u64("18446744073709551615"), Some(u64::MAX));
    assert_eq!(parse_u64("18446744073709551616"), None);
    assert_eq!(parse_u64("+"), None);
    assert_eq!(parse_u64(""), None);
    assert_eq!(parse_u64("-1"), None);
    assert_eq!(parse_u64("007"), Some(7));
}

#[test]
fn metadata_formats_are_tried_in_order() {
    let jar = build_jar(&[("META-INF/mods.toml", "")]);
    let mut files = parsed_files();
    files.mods_toml = Some(toml_with(vec![entry("forge_mod")]));
    files.mcmod_info = Some(vec![McmodInfoEntry {
        modid: Some("legacy".to_string()),
        name: None,
        version: None,
        mcversion: None,
        description: None,
        url: None,
        logo_file: None,
        authors: None,
    }]);
    assert_eq!(extract_mod_metadata(&jar, &files).map(|m| m.mod_id), Some("forge_mod".to_string()));
    files.fabric_mod_json = Some(fabric(None));
    files.quilt_mod_json = Some(fabric(Some("quilted")));
    assert_eq!(extract_mod_metadata(&jar, &files).map(|m| m.mod_id), Some("quilted".to_string()));
    files.fabric_mod_json = Some(fabric(Some("fab")));
    assert_eq!(extract_mod_metadata(&jar, &files).map(|m| m.mod_id), Some("fab".to_string()));
    let mut legacy = parsed_files();
    legacy.mcmod_info = files.mcmod_info.take();
    legacy.mods_toml = Some(toml_with(vec![]));
    assert_eq!(extract_mod_metadata(&jar, &legacy).map(|m| m.mod_id), Some("legacy".to_string()));
    assert!(extract_mod_metadata(&jar, &parsed_files()).is_none());
}
