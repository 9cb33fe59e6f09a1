//! Decisions about a Minecraft version profile: its id, whether the cached
//! copy can be used, where to fetch it when the primary URL fails, and the
//! repairs applied to it before use.

use vstd::prelude::*;
use crate::text::{chars_of, chars_eq, string_from, views};
use crate::download::{is_liteloader_library, liteloader_coordinates, marker_is_current, DERIVED_VERSION_CACHE_FORMAT};

verus! {

/// The id of a version profile: the game version, followed by `-` and the
/// loader version for a modded profile.
pub open spec fn version_id_of(game_version: Seq<char>, loader_version: Option<Seq<char>>) -> Seq<char> {
    match loader_version {
        Some(l) => game_version + "-"@ + l,
        None => game_version,
    }
}

pub fn version_info_id(game_version: &str, loader_version: Option<&str>) -> (r: String)
    ensures
        r@ == version_id_of(
            game_version@,
            match loader_version {
                Some(l) => Some(l@),
                None => None,
            },
        ),
{
    let mut id = chars_of(game_version);
    if let Some(l) = loader_version {
        let mut dash = chars_of("-");
        id.append(&mut dash);
        let mut rest = chars_of(l);
        id.append(&mut rest);
    }
    string_from(&id)
}

/// A cached profile is used when it exists, no refetch is forced, and, for a
/// modded profile, its format marker is current.
pub open spec fn cache_reusable(cached_exists: bool, force: Option<bool>, has_loader: bool, marker_current: bool) -> bool {
    cached_exists && force != Some(true) && (!has_loader || marker_current)
}

pub fn reuse_cached_version_info(cached_exists: bool, force: Option<bool>, has_loader: bool, marker_current: bool) -> (r: bool)
    ensures
        r == cache_reusable(cached_exists, force, has_loader, marker_current),
{
    let forced = match force {
        Some(f) => f,
        None => false,
    };
    cached_exists && !forced && (!has_loader || marker_current)
}

/// One entry of Mojang's version manifest.
pub struct ManifestVersion {
    pub id: String,
    pub url: String,
    pub sha1: String,
}

/// The first manifest entry for game version `id`.
pub open spec fn manifest_entry(versions: Seq<ManifestVersion>, id: Seq<char>) -> Option<ManifestVersion>
    decreases versions.len(),
{
    if versions.len() == 0 {
        None
    } else if versions[0].id@ == id {
        Some(versions[0])
    } else {
        manifest_entry(versions.drop_first(), id)
    }
}

/// Where to fetch a profile whose primary URL failed: the URL and SHA-1 of
/// the manifest entry for the same game version, unless that is the same URL.
pub open spec fn fallback_source(
    primary_url: Seq<char>,
    game_version: Seq<char>,
    versions: Seq<ManifestVersion>,
) -> Option<(Seq<char>, Seq<char>)> {
    match manifest_entry(versions, game_version) {
        Some(v) => if v.url@ != primary_url {
            Some((v.url@, v.sha1@))
        } else {
            None
        },
        None => None,
    }
}

pub fn fallback_version_source(primary_url: &str, game_version: &str, versions: &[ManifestVersion]) -> (r: Option<(String, String)>)
    ensures
        match r {
            Some((url, sha1)) => fallback_source(primary_url@, game_version@, versions@) == Some((url@, sha1@)),
            None => fallback_source(primary_url@, game_version@, versions@) is None,
        },
{
    let id = chars_of(game_version);
    let primary = chars_of(primary_url);
    let mut i: usize = 0;
    assert(versions@.skip(0) =~= versions@);
    while i < versions.len()
        invariant
            i <= versions.len(),
            id@ == game_version@,
            primary@ == primary_url@,
            manifest_entry(versions@, game_version@) == manifest_entry(versions@.skip(i as int), game_version@),
        decreases versions.len() - i,
    {
        assert(versions@.skip(i as int)[0] == versions@[i as int]);
        let v = &versions[i];
        if chars_eq(&chars_of(v.id.as_str()), &id) {
            if chars_eq(&chars_of(v.url.as_str()), &primary) {
                return None;
            }
            return Some((v.url.clone(), v.sha1.clone()));
        }
        assert(versions@.skip(i as int).drop_first() =~= versions@.skip(i + 1));
        i += 1;
    }
    None
}

/// The Java runtime a profile asks for.
pub struct JavaVersion {
    pub component: String,
    pub major_version: u32,
}

/// Whether a profile's libraries include LiteLoader.
pub open spec fn has_liteloader(library_names: Seq<Seq<char>>) -> bool {
    exists|i: int| 0 <= i < library_names.len() && liteloader_coordinates(#[trigger] library_names[i])
}

/// LiteLoader only runs on Java 8: a profile with LiteLoader that asks for
/// another Java (or for none) is pinned to `jre-legacy` 8.
pub open spec fn needs_java_pin(library_names: Seq<Seq<char>>, java: Option<JavaVersion>) -> bool {
    has_liteloader(library_names) && !(java matches Some(j) && j.major_version == 8)
}

/// Repairs a profile after the loader-incompatible libraries named in
/// `removed` were dropped from it: pins a LiteLoader profile to Java 8.
/// Returns whether the profile changed.
pub fn normalize_version_profile(removed: &[String], library_names: &[String], java: &mut Option<JavaVersion>) -> (changed: bool)
    ensures
        changed == (removed@.len() > 0 || needs_java_pin(views(library_names@), *old(java))),
        needs_java_pin(views(library_names@), *old(java)) ==> (*final(java) matches Some(j) && j.component@
            == "jre-legacy"@ && j.major_version == 8),
        !needs_java_pin(views(library_names@), *old(java)) ==> *final(java) == *old(java),
{
    let mut liteloader = false;
    let mut i: usize = 0;
    while i < library_names.len()
        invariant
            i <= library_names.len(),
            liteloader == exists|k: int| 0 <= k < i && liteloader_coordinates(#[trigger] views(library_names@)[k]),
        decreases library_names.len() - i,
    {
        if is_liteloader_library(library_names[i].as_str()) {
            assert(liteloader_coordinates(views(library_names@)[i as int]));
            liteloader = true;
        }
        i += 1;
    }
    let java8 = match java {
        Some(j) => j.major_version == 8,
        None => false,
    };
    let pin = liteloader && !java8;
    if pin {
        *java = Some(JavaVersion { component: String::from_str("jre-legacy"), major_version: 8 });
    }
    removed.len() > 0 || pin
}

/// A modded profile without legacy game arguments takes them from the
/// vanilla profile of its game version.
pub fn wants_legacy_arguments(has_loader: bool, arguments: &Option<String>) -> (r: bool)
    ensures
        r == (has_loader && arguments is None),
{
    has_loader && arguments.is_none()
}

/// Restores legacy game arguments from the vanilla profile's, when wanted
/// and the vanilla profile has them. Returns whether they were restored.
pub fn restore_legacy_arguments(has_loader: bool, arguments: &mut Option<String>, vanilla_arguments: Option<String>) -> (restored: bool)
    ensures
        restored == (has_loader && *old(arguments) is None && vanilla_arguments is Some),
        restored ==> *final(arguments) == vanilla_arguments,
        !restored ==> *final(arguments) == *old(arguments),
{
    if !wants_legacy_arguments(has_loader, arguments) {
        return false;
    }
    match vanilla_arguments {
        Some(a) => {
            *arguments = Some(a);
            true
        },
        None => false,
    }
}

/// A profile saved together with its format marker (the current format) is
/// used from the cache by any later load that does not force a refetch.
pub proof fn law_saved_profile_is_reused(force: Option<bool>, has_loader: bool)
    requires
        force != Some(true),
    ensures
        cache_reusable(true, force, has_loader, marker_is_current(Some(DERIVED_VERSION_CACHE_FORMAT@))),
{
    reveal_strlit("1");
    assert(crate::text::trim_start_white(DERIVED_VERSION_CACHE_FORMAT@) == DERIVED_VERSION_CACHE_FORMAT@);
    assert(crate::text::trim_end_white(DERIVED_VERSION_CACHE_FORMAT@) == DERIVED_VERSION_CACHE_FORMAT@);
}

} // verus!
