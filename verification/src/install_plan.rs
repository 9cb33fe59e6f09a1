//! What to fetch for each Minecraft library and asset of a version, decided
//! from what the version metadata declares and what is already on disk.

use vstd::prelude::*;
use crate::text::{chars_of, opt_view, slice_to, string_from, views};
use crate::download::{
    classified_artifact_path, classified_path, first_sha1, legacy_download_urls,
    legacy_library_content_validation, legacy_library_download_urls, legacy_library_sha1,
    ContentValidation,
};

verus! {

/// A download declared by version metadata.
pub struct DeclaredDownload {
    pub url: String,
    pub sha1: String,
    pub size: u64,
}

/// What the installer knows about one library before fetching it.
pub struct LibraryFacts {
    /// The library's rules allow it here (true when it has none).
    pub rules_allow: bool,
    pub downloadable: bool,
    /// The library declares natives.
    pub has_natives: bool,
    /// The native classifier for this platform, when the natives name one.
    pub native_classifier: Option<String>,
    /// The download declared under that classifier.
    pub native_download: Option<DeclaredDownload>,
    /// The Maven artifact path of the library.
    pub artifact_path: String,
    /// The artifact is already in the libraries directory.
    pub artifact_present: bool,
    /// The declared artifact download.
    pub artifact_download: Option<DeclaredDownload>,
    /// The Maven repository the library names.
    pub repository: Option<String>,
    /// The checksums a legacy library lists.
    pub checksums: Option<Vec<String>>,
}

/// What to do for one library.
pub enum LibraryStep {
    /// Nothing to fetch.
    Skip,
    /// Fetch (or reuse) the declared native archive into the native cache
    /// under its SHA-1, then extract it.
    CachedNative { sha1: String, url: String, size: u64 },
    /// Fetch (or reuse) the classified native archive at `artifact_path` from
    /// the candidate URLs, then extract it.
    RepositoryNative { artifact_path: String, urls: Vec<String> },
    /// Fetch (or reuse) the declared artifact.
    Declared { url: String, sha1: String, size: u64 },
    /// Fetch (or reuse) the artifact from the candidate URLs.
    Repository { urls: Vec<String>, sha1: Option<String>, validation: ContentValidation },
    /// A required library names no repository that can be trusted.
    NoSafeRepository,
}

/// The value of a `LibraryStep`.
pub enum LibraryStepView {
    Skip,
    CachedNative { sha1: Seq<char>, url: Seq<char>, size: u64 },
    RepositoryNative { artifact_path: Seq<char>, urls: Seq<Seq<char>> },
    Declared { url: Seq<char>, sha1: Seq<char>, size: u64 },
    Repository { urls: Seq<Seq<char>>, sha1: Option<Seq<char>>, validation: ContentValidation },
    NoSafeRepository,
}

impl View for LibraryStep {
    type V = LibraryStepView;

    open spec fn view(&self) -> LibraryStepView {
        match self {
            LibraryStep::Skip => LibraryStepView::Skip,
            LibraryStep::CachedNative { sha1, url, size } => LibraryStepView::CachedNative {
                sha1: sha1@,
                url: url@,
                size: *size,
            },
            LibraryStep::RepositoryNative { artifact_path, urls } => LibraryStepView::RepositoryNative {
                artifact_path: artifact_path@,
                urls: views(urls@),
            },
            LibraryStep::Declared { url, sha1, size } => LibraryStepView::Declared {
                url: url@,
                sha1: sha1@,
                size: *size,
            },
            LibraryStep::Repository { urls, sha1, validation } => LibraryStepView::Repository {
                urls: views(urls@),
                sha1: opt_view(*sha1),
                validation: *validation,
            },
            LibraryStep::NoSafeRepository => LibraryStepView::NoSafeRepository,
        }
    }
}

/// Legacy libraries ending in `.jar` are checked as jars.
pub open spec fn content_validation_of(artifact_path: Seq<char>) -> ContentValidation {
    if crate::text::has_suffix(artifact_path, ".jar"@) {
        ContentValidation::Jar
    } else {
        ContentValidation::Unchecked
    }
}

/// The step for a library: skipped when its rules exclude it, when it is not
/// downloadable, when it has natives but none for this platform, or when its
/// artifact is present and no refetch is forced; a native archive comes from
/// its declared download or, lacking one, from the library's repository under
/// the classified path; an artifact comes from its declared download when that
/// has a URL, else from the library's repository.
pub open spec fn library_step(f: LibraryFacts, force: bool) -> LibraryStepView {
    if !f.rules_allow || !f.downloadable {
        LibraryStepView::Skip
    } else if f.has_natives {
        match f.native_classifier {
            None => LibraryStepView::Skip,
            Some(c) => match f.native_download {
                Some(d) => LibraryStepView::CachedNative { sha1: d.sha1@, url: d.url@, size: d.size },
                None => {
                    let path = classified_path(f.artifact_path@, c@);
                    match legacy_download_urls(opt_view(f.repository), path) {
                        Some(urls) => LibraryStepView::RepositoryNative { artifact_path: path, urls },
                        None => LibraryStepView::NoSafeRepository,
                    }
                },
            },
        }
    } else if f.artifact_present && !force {
        LibraryStepView::Skip
    } else {
        match f.artifact_download {
            Some(d) if d.url@.len() > 0 => LibraryStepView::Declared { url: d.url@, sha1: d.sha1@, size: d.size },
            _ => match legacy_download_urls(opt_view(f.repository), f.artifact_path@) {
                Some(urls) => LibraryStepView::Repository {
                    urls,
                    sha1: match f.checksums {
                        Some(c) => first_sha1(views(c@)),
                        None => None,
                    },
                    validation: content_validation_of(f.artifact_path@),
                },
                None => LibraryStepView::NoSafeRepository,
            },
        }
    }
}

/// Decides what to fetch for one library.
pub fn plan_library_download(f: &LibraryFacts, force: bool) -> (r: LibraryStep)
    ensures
        r@ == library_step(*f, force),
{
    if !f.rules_allow || !f.downloadable {
        return LibraryStep::Skip;
    }
    let repository = match &f.repository {
        Some(s) => Some(s.as_str()),
        None => None,
    };
    assert(match repository { Some(s) => Some(s@), None => None::<Seq<char>> } == opt_view(f.repository));
    if f.has_natives {
        let classifier = match &f.native_classifier {
            Some(c) => c,
            None => return LibraryStep::Skip,
        };
        if let Some(d) = &f.native_download {
            return LibraryStep::CachedNative { sha1: d.sha1.clone(), url: d.url.clone(), size: d.size };
        }
        let path = classified_artifact_path(f.artifact_path.as_str(), classifier.as_str());
        return match legacy_library_download_urls(repository, path.as_str()) {
            Some(urls) => LibraryStep::RepositoryNative { artifact_path: path, urls },
            None => LibraryStep::NoSafeRepository,
        };
    }
    if f.artifact_present && !force {
        return LibraryStep::Skip;
    }
    if let Some(d) = &f.artifact_download {
        if !d.url.as_str().is_empty() {
            return LibraryStep::Declared { url: d.url.clone(), sha1: d.sha1.clone(), size: d.size };
        }
    }
    match legacy_library_download_urls(repository, f.artifact_path.as_str()) {
        Some(urls) => LibraryStep::Repository {
            urls,
            sha1: legacy_library_sha1(
                match &f.checksums {
                    Some(c) => Some(c),
                    None => None,
                },
            ),
            validation: legacy_library_content_validation(f.artifact_path.as_str()),
        },
        None => LibraryStep::NoSafeRepository,
    }
}

/// The bytes a library adds to the download total announced up front: the
/// size of its declared native archive, or of its declared artifact when that
/// is missing or a refetch is forced; nothing otherwise.
pub open spec fn library_missing_bytes(f: LibraryFacts, force: bool) -> int {
    if !f.rules_allow || !f.downloadable {
        0
    } else if f.has_natives {
        match (f.native_classifier, f.native_download) {
            (Some(_), Some(d)) => d.size as int,
            _ => 0,
        }
    } else if f.artifact_present && !force {
        0
    } else {
        match f.artifact_download {
            Some(d) if d.url@.len() > 0 => d.size as int,
            _ => 0,
        }
    }
}

/// The announced bytes of a list of libraries.
pub open spec fn libraries_missing_bytes(libraries: Seq<LibraryFacts>, force: bool) -> int
    decreases libraries.len(),
{
    if libraries.len() == 0 {
        0
    } else {
        libraries_missing_bytes(libraries.drop_last(), force) + library_missing_bytes(libraries.last(), force)
    }
}

pub proof fn lemma_libraries_missing_bytes_prefix(libraries: Seq<LibraryFacts>, force: bool, i: int)
    requires
        0 <= i <= libraries.len(),
    ensures
        0 <= libraries_missing_bytes(libraries.take(i), force) <= libraries_missing_bytes(libraries, force),
    decreases libraries.len(),
{
    if i < libraries.len() {
        assert(libraries.drop_last().take(i) =~= libraries.take(i));
        lemma_libraries_missing_bytes_prefix(libraries.drop_last(), force, i);
    } else {
        assert(libraries.take(i) =~= libraries);
        if libraries.len() > 0 {
            lemma_libraries_missing_bytes_prefix(libraries.drop_last(), force, i - 1);
            assert(libraries.drop_last().take(i - 1) =~= libraries.drop_last());
        }
    }
}

fn library_missing_bytes_of(f: &LibraryFacts, force: bool) -> (r: u64)
    ensures
        r == library_missing_bytes(*f, force),
{
    if !f.rules_allow || !f.downloadable {
        0
    } else if f.has_natives {
        match (&f.native_classifier, &f.native_download) {
            (Some(_), Some(d)) => d.size,
            _ => 0,
        }
    } else if f.artifact_present && !force {
        0
    } else {
        match &f.artifact_download {
            Some(d) => if !d.url.as_str().is_empty() {
                d.size
            } else {
                0
            },
            None => 0,
        }
    }
}

/// The bytes to announce up front for the libraries of a version.
pub fn missing_library_bytes(libraries: &[LibraryFacts], force: bool) -> (r: u64)
    requires
        libraries_missing_bytes(libraries@, force) <= u64::MAX,
    ensures
        r == libraries_missing_bytes(libraries@, force),
{
    let mut total: u64 = 0;
    let mut i: usize = 0;
    while i < libraries.len()
        invariant
            i <= libraries.len(),
            libraries_missing_bytes(libraries@, force) <= u64::MAX,
            total == libraries_missing_bytes(libraries@.take(i as int), force),
        decreases libraries.len() - i,
    {
        assert(libraries@.take(i + 1).drop_last() =~= libraries@.take(i as int));
        proof {
            lemma_libraries_missing_bytes_prefix(libraries@, force, i + 1);
        }
        total = total + library_missing_bytes_of(&libraries[i], force);
        i += 1;
    }
    assert(libraries@.take(libraries.len() as int) =~= libraries@);
    total
}

/// The bytes announced up front for a library are exactly the size of the
/// declared download that its plan fetches, and nothing for any other step.
pub proof fn law_announced_library_bytes_match_plan(f: LibraryFacts, force: bool)
    ensures
        library_missing_bytes(f, force) == match library_step(f, force) {
            LibraryStepView::CachedNative { size, .. } => size as int,
            LibraryStepView::Declared { size, .. } => size as int,
            _ => 0,
        },
{
}

/// A library fetched from its repository is content-checked as a jar exactly
/// when its artifact path ends in `.jar`, and not checked otherwise; its
/// candidate URLs are the legacy download candidates of its artifact path.
pub proof fn law_repository_steps_check_only_jars_as_jars(f: LibraryFacts, force: bool)
    requires
        library_step(f, force) is Repository,
    ensures
        library_step(f, force) matches LibraryStepView::Repository { urls, validation, .. } && validation == (
        if crate::text::has_suffix(f.artifact_path@, ".jar"@) {
            ContentValidation::Jar
        } else {
            ContentValidation::Unchecked
        }) && Some(urls) == legacy_download_urls(opt_view(f.repository), f.artifact_path@),
        !f.has_natives,
{
}

/// How a Minecraft asset is fetched.
#[derive(Clone, Copy, Debug, PartialEq, Eq, Structural)]
pub enum AssetStep {
    /// In the shared batch download; `legacy_too` also writes the legacy copy.
    Batch { legacy_too: bool },
    /// One by one, reusing a local runtime when one is known.
    PerFile,
    /// Only the legacy copy is missing: copy it from the object store.
    LegacyCopy,
    /// Nothing to do.
    Skip,
}

/// The object is fetched when missing or forced; the legacy copy when legacy
/// assets are wanted and it is missing, or when forced.
pub open spec fn asset_step(
    object_present: bool,
    legacy_present: bool,
    with_legacy: bool,
    force: bool,
    local_source: bool,
) -> AssetStep {
    let fetch_object = !object_present || force;
    let fetch_legacy = (with_legacy && !legacy_present) || force;
    if fetch_object {
        if local_source {
            AssetStep::PerFile
        } else {
            AssetStep::Batch { legacy_too: fetch_legacy }
        }
    } else if fetch_legacy {
        AssetStep::LegacyCopy
    } else {
        AssetStep::Skip
    }
}

/// Decides how to fetch one asset.
pub fn plan_asset(
    object_present: bool,
    legacy_present: bool,
    with_legacy: bool,
    force: bool,
    local_source: bool,
) -> (r: AssetStep)
    ensures
        r == asset_step(object_present, legacy_present, with_legacy, force, local_source),
{
    let fetch_object = !object_present || force;
    let fetch_legacy = (with_legacy && !legacy_present) || force;
    if fetch_object {
        if local_source {
            AssetStep::PerFile
        } else {
            AssetStep::Batch { legacy_too: fetch_legacy }
        }
    } else if fetch_legacy {
        AssetStep::LegacyCopy
    } else {
        AssetStep::Skip
    }
}

/// What the installer knows about one asset before fetching it.
pub struct AssetState {
    pub size: u64,
    pub object_present: bool,
    pub legacy_present: bool,
}

/// An asset counts towards the announced total when its object or its
/// legacy copy is to be fetched.
pub open spec fn asset_counts(a: AssetState, with_legacy: bool, force: bool) -> bool {
    (!a.object_present || force) || ((with_legacy && !a.legacy_present) || force)
}

pub open spec fn assets_missing_bytes(assets: Seq<AssetState>, with_legacy: bool, force: bool) -> int
    decreases assets.len(),
{
    if assets.len() == 0 {
        0
    } else {
        assets_missing_bytes(assets.drop_last(), with_legacy, force) + if asset_counts(
            assets.last(),
            with_legacy,
            force,
        ) {
            assets.last().size as int
        } else {
            0
        }
    }
}

pub proof fn lemma_assets_missing_bytes_prefix(assets: Seq<AssetState>, with_legacy: bool, force: bool, i: int)
    requires
        0 <= i <= assets.len(),
    ensures
        0 <= assets_missing_bytes(assets.take(i), with_legacy, force) <= assets_missing_bytes(assets, with_legacy, force),
    decreases assets.len(),
{
    if i < assets.len() {
        assert(assets.drop_last().take(i) =~= assets.take(i));
        lemma_assets_missing_bytes_prefix(assets.drop_last(), with_legacy, force, i);
    } else {
        assert(assets.take(i) =~= assets);
        if assets.len() > 0 {
            lemma_assets_missing_bytes_prefix(assets.drop_last(), with_legacy, force, i - 1);
            assert(assets.drop_last().take(i - 1) =~= assets.drop_last());
        }
    }
}

/// The bytes to announce up front for the assets of an index.
pub fn missing_asset_bytes(assets: &[AssetState], with_legacy: bool, force: bool) -> (r: u64)
    requires
        assets_missing_bytes(assets@, with_legacy, force) <= u64::MAX,
    ensures
        r == assets_missing_bytes(assets@, with_legacy, force),
{
    let mut total: u64 = 0;
    let mut i: usize = 0;
    while i < assets.len()
        invariant
            i <= assets.len(),
            assets_missing_bytes(assets@, with_legacy, force) <= u64::MAX,
            total == assets_missing_bytes(assets@.take(i as int), with_legacy, force),
        decreases assets.len() - i,
    {
        assert(assets@.take(i + 1).drop_last() =~= assets@.take(i as int));
        proof {
            lemma_assets_missing_bytes_prefix(assets@, with_legacy, force, i + 1);
        }
        let a = &assets[i];
        if (!a.object_present || force) || ((with_legacy && !a.legacy_present) || force) {
            total = total + a.size;
        }
        i += 1;
    }
    assert(assets@.take(assets.len() as int) =~= assets@);
    total
}

/// An asset counts towards the announced total exactly when its plan has
/// something to do, whichever way it is fetched.
pub proof fn law_counted_assets_are_the_fetched_ones(a: AssetState, with_legacy: bool, force: bool, local_source: bool)
    ensures
        asset_counts(a, with_legacy, force) <==> asset_step(
            a.object_present,
            a.legacy_present,
            with_legacy,
            force,
            local_source,
        ) != AssetStep::Skip,
{
}

/// The number of UTF-8 bytes of a character.
pub open spec fn utf8_width(c: char) -> int {
    if '\u{80}' > c {
        1
    } else if '\u{800}' > c {
        2
    } else if '\u{10000}' > c {
        3
    } else {
        4
    }
}

/// The first two bytes of `hash` end on a character boundary.
pub open spec fn has_two_byte_prefix(hash: Seq<char>) -> bool {
    ||| hash.len() >= 1 && utf8_width(hash[0]) == 2
    ||| hash.len() >= 2 && utf8_width(hash[0]) == 1 && utf8_width(hash[1]) == 1
}

/// The characters in the first two bytes of `hash`.
pub open spec fn two_byte_prefix(hash: Seq<char>) -> Seq<char> {
    if utf8_width(hash[0]) == 2 {
        hash.take(1)
    } else {
        hash.take(2)
    }
}

/// Where Mojang serves the asset object with SHA-1 `hash`: under a directory
/// named by the first two bytes of the hash.
pub open spec fn asset_url_of(hash: Seq<char>) -> Seq<char> {
    "https://resources.download.minecraft.net/"@ + two_byte_prefix(hash) + "/"@ + hash
}

/// The download URL of the asset object with SHA-1 `hash`.
pub fn asset_url(hash: &str) -> (r: String)
    requires
        has_two_byte_prefix(hash@),
    ensures
        r@ == asset_url_of(hash@),
{
    let h = chars_of(hash);
    let prefix = if h[0] >= '\u{80}' {
        slice_to(&h, 1)
    } else {
        slice_to(&h, 2)
    };
    let mut r = chars_of("https://resources.download.minecraft.net/");
    let mut p = prefix;
    r.append(&mut p);
    let mut slash = chars_of("/");
    r.append(&mut slash);
    let mut rest = chars_of(hash);
    r.append(&mut rest);
    string_from(&r)
}

/// Where an artifact can come from.
#[derive(Clone, Copy, Debug, PartialEq, Eq, Structural)]
pub enum ArtifactAvailability {
    /// Already at its destination.
    Cached,
    /// A verified copy lies in a local Minecraft runtime.
    LocalReusable,
    /// It has to be downloaded.
    NetworkRequired,
}

/// The next step of checking a local runtime for an artifact.
#[derive(Clone, Copy, Debug, PartialEq, Eq, Structural)]
pub enum LocalArtifactCheck {
    /// The answer is known.
    Decided(ArtifactAvailability),
    /// The local candidate has the expected size: compare its SHA-1.
    CompareHash,
}

/// An artifact at its destination is cached; without a local runtime, an
/// expected SHA-1, a local candidate file, or (when a size is expected) a
/// candidate of that size, it must be downloaded; otherwise the candidate's
/// hash decides.
pub open spec fn local_artifact_check(
    destination_exists: bool,
    local_known: bool,
    sha1_expected: bool,
    candidate_len: Option<u64>,
    expected_size: Option<u64>,
) -> LocalArtifactCheck {
    if destination_exists {
        LocalArtifactCheck::Decided(ArtifactAvailability::Cached)
    } else if !local_known || !sha1_expected {
        LocalArtifactCheck::Decided(ArtifactAvailability::NetworkRequired)
    } else {
        match candidate_len {
            None => LocalArtifactCheck::Decided(ArtifactAvailability::NetworkRequired),
            Some(len) => match expected_size {
                Some(size) if size != len => LocalArtifactCheck::Decided(ArtifactAvailability::NetworkRequired),
                _ => LocalArtifactCheck::CompareHash,
            },
        }
    }
}

/// Checks what is known about a local copy of an artifact; `candidate_len`
/// is the size of the local candidate when it is a file.
pub fn check_local_artifact(
    destination_exists: bool,
    local_known: bool,
    sha1_expected: bool,
    candidate_len: Option<u64>,
    expected_size: Option<u64>,
) -> (r: LocalArtifactCheck)
    ensures
        r == local_artifact_check(destination_exists, local_known, sha1_expected, candidate_len, expected_size),
{
    if destination_exists {
        return LocalArtifactCheck::Decided(ArtifactAvailability::Cached);
    }
    if !local_known || !sha1_expected {
        return LocalArtifactCheck::Decided(ArtifactAvailability::NetworkRequired);
    }
    match candidate_len {
        None => LocalArtifactCheck::Decided(ArtifactAvailability::NetworkRequired),
        Some(len) => match expected_size {
            Some(size) => if size != len {
                LocalArtifactCheck::Decided(ArtifactAvailability::NetworkRequired)
            } else {
                LocalArtifactCheck::CompareHash
            },
            None => LocalArtifactCheck::CompareHash,
        },
    }
}

/// A local candidate is reused when its SHA-1 equals the expected one,
/// ignoring ASCII case.
pub open spec fn hash_availability(actual_sha1: Seq<char>, expected_sha1: Seq<char>) -> ArtifactAvailability {
    if crate::text::ascii_lower(actual_sha1) == crate::text::ascii_lower(expected_sha1) {
        ArtifactAvailability::LocalReusable
    } else {
        ArtifactAvailability::NetworkRequired
    }
}

pub fn compare_local_hash(actual_sha1: &str, expected_sha1: &str) -> (r: ArtifactAvailability)
    ensures
        r == hash_availability(actual_sha1@, expected_sha1@),
{
    let a = crate::text::to_ascii_lower(&chars_of(actual_sha1));
    let e = crate::text::to_ascii_lower(&chars_of(expected_sha1));
    if crate::text::chars_eq(&a, &e) {
        ArtifactAvailability::LocalReusable
    } else {
        ArtifactAvailability::NetworkRequired
    }
}

/// A local copy is only ever compared (and so only ever reused) when nothing
/// is at the destination, a local runtime and a SHA-1 are known, and the
/// candidate is a file of the expected size.
pub proof fn law_local_reuse_needs_a_verified_candidate(
    destination_exists: bool,
    local_known: bool,
    sha1_expected: bool,
    candidate_len: Option<u64>,
    expected_size: Option<u64>,
)
    ensures
        local_artifact_check(destination_exists, local_known, sha1_expected, candidate_len, expected_size)
            == LocalArtifactCheck::CompareHash ==> {
            &&& !destination_exists
            &&& local_known
            &&& sha1_expected
            &&& candidate_len is Some
            &&& (expected_size matches Some(size) ==> candidate_len == Some(size))
        },
{
}

/// One of a version's single files (client jar, assets index, log config):
/// its declared size, and whether it is already in place.
pub struct SingleFile {
    pub size: u64,
    pub present: bool,
}

/// The bytes a single file adds to the announced total: its size when it is
/// missing or a refetch is forced.
pub open spec fn single_file_bytes(file: Option<SingleFile>, force: bool) -> int {
    match file {
        Some(f) => if !f.present || force {
            f.size as int
        } else {
            0
        },
        None => 0,
    }
}

/// The bytes announced before a version's download starts: client jar,
/// assets index, log config and libraries.
pub open spec fn initial_bytes(
    client: SingleFile,
    asset_index: SingleFile,
    log_config: Option<SingleFile>,
    libraries: Seq<LibraryFacts>,
    force: bool,
) -> int {
    single_file_bytes(Some(client), force) + single_file_bytes(Some(asset_index), force) + single_file_bytes(
        log_config,
        force,
    ) + libraries_missing_bytes(libraries, force)
}

fn single_file_bytes_of(file: &Option<SingleFile>, force: bool) -> (r: u64)
    ensures
        r == single_file_bytes(*file, force),
{
    match file {
        Some(f) => if !f.present || force {
            f.size
        } else {
            0
        },
        None => 0,
    }
}

/// The bytes to announce before downloading a version; `None` when the
/// version declares no client download.
pub fn missing_initial_minecraft_bytes(
    client: Option<SingleFile>,
    asset_index: SingleFile,
    log_config: Option<SingleFile>,
    libraries: &[LibraryFacts],
    force: bool,
) -> (r: Option<u64>)
    requires
        client matches Some(c) ==> initial_bytes(c, asset_index, log_config, libraries@, force) <= u64::MAX,
    ensures
        r == match client {
            Some(c) => Some(initial_bytes(c, asset_index, log_config, libraries@, force) as u64),
            None => None,
        },
{
    let client = match client {
        Some(c) => c,
        None => return None,
    };
    proof {
        lemma_libraries_missing_bytes_prefix(libraries@, force, libraries@.len() as int);
        assert(libraries@.take(libraries@.len() as int) =~= libraries@);
    }
    let client_bytes = single_file_bytes_of(&Some(client), force);
    let index_bytes = single_file_bytes_of(&Some(asset_index), force);
    let log_bytes = single_file_bytes_of(&log_config, force);
    let library_bytes = missing_library_bytes(libraries, force);
    Some(client_bytes + index_bytes + log_bytes + library_bytes)
}

/// The error text for a required library that names no trusted repository.
pub open spec fn no_safe_repository_text(library_name: Seq<char>, native: bool) -> Seq<char> {
    if native {
        "No safe Maven repository is known for required native library "@ + library_name
    } else {
        "No safe Maven repository is known for required library "@ + library_name
    }
}

pub fn no_safe_repository_message(library_name: &str, native: bool) -> (r: String)
    ensures
        r@ == no_safe_repository_text(library_name@, native),
{
    if native {
        String::from_str("No safe Maven repository is known for required native library ").concat(library_name)
    } else {
        String::from_str("No safe Maven repository is known for required library ").concat(library_name)
    }
}

/// The error text when a download has no candidate URL at all.
pub open spec fn no_trusted_url_text() -> Seq<char> {
    "No trusted download URL is available"@
}

/// The URL to fetch first among the candidates, the others being fallbacks;
/// an error when there is none.
pub fn first_candidate(urls: &[String]) -> (r: Result<String, String>)
    ensures
        match r {
            Ok(url) => urls@.len() > 0 && url@ == urls@[0]@,
            Err(message) => urls@.len() == 0 && message@ == no_trusted_url_text(),
        },
{
    if urls.len() == 0 {
        Err(String::from_str("No trusted download URL is available"))
    } else {
        Ok(urls[0].clone())
    }
}

/// Where the native archive of a library lies once installed: the native
/// cache, under the declared download's SHA-1, when the natives declare a
/// download; else the classified artifact in the libraries directory.
pub enum NativeArchive {
    /// `minecraft-natives/<file_name>` in the caches directory.
    Cached { file_name: String },
    /// `artifact_path` in the libraries directory.
    Libraries { artifact_path: String },
}

pub enum NativeArchiveView {
    Cached { file_name: Seq<char> },
    Libraries { artifact_path: Seq<char> },
}

impl View for NativeArchive {
    type V = NativeArchiveView;

    open spec fn view(&self) -> NativeArchiveView {
        match self {
            NativeArchive::Cached { file_name } => NativeArchiveView::Cached { file_name: file_name@ },
            NativeArchive::Libraries { artifact_path } => NativeArchiveView::Libraries { artifact_path: artifact_path@ },
        }
    }
}

pub open spec fn native_archive_of(f: LibraryFacts, classifier: Seq<char>) -> NativeArchiveView {
    match f.native_download {
        Some(d) => NativeArchiveView::Cached { file_name: d.sha1@ + ".jar"@ },
        None => NativeArchiveView::Libraries { artifact_path: classified_path(f.artifact_path@, classifier) },
    }
}

/// Locates the installed native archive of a library for `classifier`, the
/// same file a fresh install extracts.
pub fn local_native_archive(f: &LibraryFacts, classifier: &str) -> (r: NativeArchive)
    ensures
        r@ == native_archive_of(*f, classifier@),
{
    match &f.native_download {
        Some(d) => NativeArchive::Cached { file_name: d.sha1.clone().concat(".jar") },
        None => NativeArchive::Libraries {
            artifact_path: classified_artifact_path(f.artifact_path.as_str(), classifier),
        },
    }
}

/// The error text when a native archive to repair from is missing.
pub open spec fn missing_native_archive_text(library_name: Seq<char>, archive_path: Seq<char>) -> Seq<char> {
    "Native library archive for "@ + library_name + " is missing at "@ + archive_path
        + "; repair or reinstall the instance"@
}

pub fn missing_native_archive_message(library_name: &str, archive_path: &str) -> (r: String)
    ensures
        r@ == missing_native_archive_text(library_name@, archive_path@),
{
    String::from_str("Native library archive for ").concat(library_name).concat(" is missing at ").concat(
        archive_path,
    ).concat("; repair or reinstall the instance")
}

/// What repairing a library's extracted natives takes.
#[derive(Clone, Copy, Debug, PartialEq, Eq, Structural)]
pub enum NativeRepairStep {
    /// Nothing: the library is excluded by its rules, not downloadable, has
    /// no natives, or none for this platform.
    Skip,
    /// The archive to repair from is missing (see `missing_native_archive_message`).
    MissingArchive,
    /// List the archive's entries and restore the missing ones.
    Inspect,
}

pub open spec fn native_repair_step(f: LibraryFacts, archive_is_file: bool) -> NativeRepairStep {
    if !f.rules_allow || !f.downloadable || !f.has_natives || f.native_classifier is None {
        NativeRepairStep::Skip
    } else if !archive_is_file {
        NativeRepairStep::MissingArchive
    } else {
        NativeRepairStep::Inspect
    }
}

/// Decides how to repair one library's natives; `archive_is_file` tells
/// whether its archive (see `local_native_archive`) is a file.
pub fn plan_native_repair(f: &LibraryFacts, archive_is_file: bool) -> (r: NativeRepairStep)
    ensures
        r == native_repair_step(*f, archive_is_file),
{
    if !f.rules_allow || !f.downloadable || !f.has_natives || f.native_classifier.is_none() {
        NativeRepairStep::Skip
    } else if !archive_is_file {
        NativeRepairStep::MissingArchive
    } else {
        NativeRepairStep::Inspect
    }
}

/// The listed archive entries whose place in the natives directory needs a
/// restore, in order; `targets[i]` is what lies at the place of entry `i`.
pub open spec fn restore_list(
    entries: Seq<(Seq<char>, u64)>,
    targets: Seq<crate::natives::EntryTarget>,
) -> Seq<(Seq<char>, u64)>
    decreases entries.len(),
{
    if entries.len() == 0 {
        Seq::empty()
    } else {
        let rest = restore_list(entries.drop_last(), targets);
        if crate::natives::entry_needs_restore(targets[entries.len() - 1]) {
            rest.push(entries.last())
        } else {
            rest
        }
    }
}

pub open spec fn entry_views(v: Seq<(String, u64)>) -> Seq<(Seq<char>, u64)> {
    v.map_values(|e: (String, u64)| (e.0@, e.1))
}

/// The entries to restore: those whose place holds no file or an empty one.
pub fn entries_to_restore(entries: &[(String, u64)], targets: &[crate::natives::EntryTarget]) -> (r: Vec<(String, u64)>)
    requires
        targets.len() == entries.len(),
    ensures
        entry_views(r@) == restore_list(entry_views(entries@), targets@),
{
    let mut r: Vec<(String, u64)> = Vec::new();
    let mut i: usize = 0;
    while i < entries.len()
        invariant
            i <= entries.len(),
            targets.len() == entries.len(),
            entry_views(r@) == restore_list(entry_views(entries@).take(i as int), targets@),
        decreases entries.len() - i,
    {
        let ghost before = r@;
        let ghost t = entry_views(entries@).take(i + 1);
        assert(t.drop_last() =~= entry_views(entries@).take(i as int));
        assert(t.last() == (entries@[i as int].0@, entries@[i as int].1));
        if crate::natives::native_entry_needs_restore(targets[i]) {
            r.push((entries[i].0.clone(), entries[i].1));
            assert(entry_views(r@) =~= entry_views(before).push((entries@[i as int].0@, entries@[i as int].1)));
        }
        i += 1;
    }
    assert(entry_views(entries@).take(entries.len() as int) =~= entry_views(entries@));
    r
}

} // verus!
