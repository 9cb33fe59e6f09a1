//! Minecraft library download planning: trusted mirror and repository
//! candidates for legacy Maven libraries, checksum selection, artifact paths,
//! and the bookkeeping of the download progress bar.

use vstd::prelude::*;
use crate::text::{
    after_last, char_views, views, chars_eq, chars_of, dedup_chars, dedup_seq, has_prefix, opt_view,
    slice_from, split_chars, split_on, starts_with, string_from, trim_end_char, trim_end_matching,
};

verus! {

pub const LAUNCHER_META_MAVEN: &'static str = "https://launcher-meta.modrinth.com/maven";
pub const LIBRARIES_MAVEN: &'static str = "https://libraries.minecraft.net";
pub const FABRIC_MAVEN: &'static str = "https://maven.fabricmc.net";
pub const FORGE_MAVEN: &'static str = "https://maven.minecraftforge.net";
pub const NEOFORGE_MAVEN: &'static str = "https://maven.neoforged.net/releases";
pub const QUILT_MAVEN: &'static str = "https://maven.quiltmc.org/repository/release";
pub const SPONGE_MAVEN: &'static str = "https://repo.spongepowered.org/maven";
pub const MAVEN_CENTRAL: &'static str = "https://repo.maven.apache.org/maven2";

/// The parts of a parsed URL that the repository checks read.
pub struct UrlParts {
    pub scheme: String,
    pub has_host: bool,
    pub username: String,
    pub has_password: bool,
    pub has_query: bool,
    pub has_fragment: bool,
    pub path: String,
}

pub open spec fn url_parts_view(p: UrlParts) -> (Seq<char>, bool, Seq<char>, bool, bool, bool, Seq<char>) {
    (p.scheme@, p.has_host, p.username@, p.has_password, p.has_query, p.has_fragment, p.path@)
}

/// What `url::Url::parse` makes of a text: `None` when it is no URL, else the
/// scheme, whether there is a host, the user name, whether there is a
/// password, a query, a fragment, and the path.
pub uninterp spec fn parsed_url(text: Seq<char>) -> Option<(Seq<char>, bool, Seq<char>, bool, bool, bool, Seq<char>)>;

/// Calls `url::Url::parse` and reads `scheme`, `host_str`, `username`,
/// `password`, `query`, `fragment` and `path` of the result. The contract
/// claims only that the outcome is a function of the text (`parsed_url`).
#[verifier::external_body]
fn parse_url(text: &str) -> (r: Option<UrlParts>)
    ensures
        match r {
            Some(p) => parsed_url(text@) == Some(url_parts_view(p)),
            None => parsed_url(text@) is None,
        },
{
    match url::Url::parse(text) {
        Ok(url) => Some(UrlParts {
            scheme: url.scheme().to_string(),
            has_host: url.host_str().is_some(),
            username: url.username().to_string(),
            has_password: url.password().is_some(),
            has_query: url.query().is_some(),
            has_fragment: url.fragment().is_some(),
            path: url.path().to_string(),
        }),
        Err(_) => None,
    }
}

/// The serialization of `relative` resolved (`url::Url::join`) against the
/// URL parsed from `repository` once `url::Url::set_path` gave it `base_path`;
/// `None` when `repository` is no URL or the join fails.
pub uninterp spec fn url_declared(repository: Seq<char>, base_path: Seq<char>, relative: Seq<char>) -> Option<Seq<char>>;

/// The texts are short enough that no serialization built from them can
/// pass the `u32` byte offsets of a `url::Url`, allowing 256 bytes for each
/// character: a character takes at most four bytes, percent-encoding at most
/// triples a byte, and a host character maps to at most 18 characters before
/// Punycode writes each in a handful of bytes.
pub open spec fn url_text_fits(repository: Seq<char>, base_path: Seq<char>, relative: Seq<char>) -> bool {
    256 * (repository.len() + base_path.len() + relative.len()) + 64 <= u32::MAX
}

/// A relative reference the url crate reads as a path with no scheme: it
/// holds no `:`, and no tab or line break (which the parser drops, so that
/// they could join slashes into an authority).
pub open spec fn plain_relative_reference(relative: Seq<char>) -> bool {
    &&& !relative.contains(':')
    &&& !relative.contains('\t')
    &&& !relative.contains('\n')
    &&& !relative.contains('\r')
}

/// Parses `repository` with `url::Url::parse`, sets its path with `set_path`
/// and resolves `relative` against it with `join`. The contract claims that
/// the outcome is a function of the three texts (`url_declared`), and that
/// the join succeeds when the repository parses as an `https` URL with a
/// host, `relative` is a safe artifact path (not starting with `/`, no
/// backslash, no empty, `.` or `..` segment) and a plain relative reference,
/// and the texts fit the `u32` offsets: the url crate then takes its
/// relative-path branch (`parse_relative`), which fails only on an offset
/// overflow. What the resolved URL is, is not stated. (`set_path` panics only
/// when the URL's serialization passes 4 GiB, a machine limit.)
#[verifier::external_body]
fn declared_url(repository: &str, base_path: &str, relative: &str) -> (r: Option<String>)
    ensures
        opt_view(r) == url_declared(repository@, base_path@, relative@),
        (parsed_url(repository@) matches Some(p) && p.0 == "https"@ && p.1 && artifact_path_is_safe(relative@)
            && plain_relative_reference(relative@) && url_text_fits(repository@, base_path@, relative@)) ==> r is Some,
{
    let mut url = url::Url::parse(repository).ok()?;
    url.set_path(base_path);
    url.join(relative).ok().map(|joined| joined.to_string())
}

/// An artifact path that can only name a file below a repository root: not
/// absolute, no backslash, and no empty, `.` or `..` segment.
pub open spec fn artifact_path_is_safe(path: Seq<char>) -> bool {
    &&& !has_prefix(path, "/"@)
    &&& !path.contains('\\')
    &&& forall|k: int|
        0 <= k < split_on(path, '/').len() ==> {
            let segment = #[trigger] split_on(path, '/')[k];
            segment.len() > 0 && segment != "."@ && segment != ".."@
        }
}

/// The repository that canonically hosts an artifact, by its group prefix.
pub open spec fn canonical_repository(path: Seq<char>) -> Option<Seq<char>> {
    if has_prefix(path, "org/scala-lang/scala-parser-combinators_"@) || has_prefix(path, "org/scala-lang/scala-swing_"@)
        || has_prefix(path, "org/scala-lang/scala-xml_"@) {
        Some(FORGE_MAVEN@)
    } else if has_prefix(path, "net/fabricmc/"@) {
        Some(FABRIC_MAVEN@)
    } else if has_prefix(path, "org/quiltmc/"@) {
        Some(QUILT_MAVEN@)
    } else if has_prefix(path, "net/minecraftforge/"@) || has_prefix(path, "cpw/mods/"@) {
        Some(FORGE_MAVEN@)
    } else if has_prefix(path, "net/neoforged/"@) {
        Some(NEOFORGE_MAVEN@)
    } else if has_prefix(path, "org/spongepowered/"@) {
        Some(SPONGE_MAVEN@)
    } else if has_prefix(path, "net/minecraft/launchwrapper/"@) {
        Some(LIBRARIES_MAVEN@)
    } else if has_prefix(path, "org/ow2/"@) || has_prefix(path, "org/scala-lang/"@) || has_prefix(path, "org/jline/"@)
        || has_prefix(path, "jline/"@) || has_prefix(path, "net/java/dev/jna/"@) || has_prefix(path, "com/typesafe/"@) {
        Some(MAVEN_CENTRAL@)
    } else if has_prefix(path, "com/modrinth/daedalus/"@) {
        Some(LAUNCHER_META_MAVEN@)
    } else {
        None
    }
}

/// The canonical download URLs of an artifact (none or one).
pub open spec fn canonical_urls(path: Seq<char>) -> Seq<Seq<char>> {
    match canonical_repository(path) {
        Some(repository) => seq![repository + "/"@ + path],
        None => Seq::empty(),
    }
}

} // verus!

verus! {

/// The download candidates for a legacy Maven library without a `downloads`
/// block: `None` when the artifact path is unsafe or the declared repository
/// (default: the Minecraft libraries repository) is not a plain `https` URL
/// without credentials, query or fragment, or the URL library cannot
/// resolve the path against it. Otherwise the URL under the
/// declared repository and the canonical URL, the canonical one first when
/// the declared repository is the launcher-meta mirror, then the Minecraft
/// libraries URL; repeats removed.
pub open spec fn legacy_download_urls(repository: Option<Seq<char>>, path: Seq<char>) -> Option<Seq<Seq<char>>> {
    if !artifact_path_is_safe(path) {
        None
    } else {
        let repo = match repository {
            Some(r) => r,
            None => LIBRARIES_MAVEN@,
        };
        match parsed_url(repo) {
            None => None,
            Some((scheme, has_host, username, has_password, has_query, has_fragment, url_path)) => {
                if scheme != "https"@ || !has_host || username.len() > 0 || has_password || has_query
                    || has_fragment {
                    None
                } else {
                    let base_path = trim_end_char(url_path, '/') + "/"@;
                    match url_declared(repo, base_path, path) {
                        None => None,
                        Some(declared) => {
                                let canonical = canonical_urls(path);
                                let candidates = if trim_end_char(repo, '/') == LAUNCHER_META_MAVEN@ {
                                    canonical.push(declared)
                                } else {
                                    seq![declared] + canonical
                                };
                                Some(dedup_seq(candidates.push(LIBRARIES_MAVEN@ + "/"@ + path)))
                            },
                    }
                }
            },
        }
    }
}

/// The repository parses as an `https` URL with a host and no credentials,
/// query or fragment, and the texts fit the URL library's offsets.
pub open spec fn plain_https_repository(repository: Seq<char>, path: Seq<char>) -> bool {
    match parsed_url(repository) {
        Some((scheme, has_host, username, has_password, has_query, has_fragment, url_path)) => {
            &&& scheme == "https"@
            &&& has_host
            &&& username.len() == 0
            &&& !has_password
            &&& !has_query
            &&& !has_fragment
            &&& url_text_fits(repository, trim_end_char(url_path, '/') + "/"@, path)
        },
        None => false,
    }
}

fn path_is_safe(path: &[char]) -> (r: bool)
    ensures
        r == artifact_path_is_safe(path@),
{
    if starts_with(path, &chars_of("/")) {
        return false;
    }
    let mut i: usize = 0;
    while i < path.len()
        invariant
            i <= path.len(),
            forall|k: int| 0 <= k < i ==> path@[k] != '\\',
        decreases path.len() - i,
    {
        if path[i] == '\\' {
            assert(path@[i as int] == '\\');
            return false;
        }
        i += 1;
    }
    let segments = split_chars(path, '/');
    let dot = chars_of(".");
    let dot_dot = chars_of("..");
    let mut k: usize = 0;
    while k < segments.len()
        invariant
            k <= segments.len(),
            char_views(segments@) == split_on(path@, '/'),
            dot@ == "."@,
            dot_dot@ == ".."@,
            forall|m: int|
                0 <= m < k ==> {
                    let segment = #[trigger] split_on(path@, '/')[m];
                    segment.len() > 0 && segment != "."@ && segment != ".."@
                },
        decreases segments.len() - k,
    {
        assert(split_on(path@, '/')[k as int] == segments@[k as int]@);
        if segments[k].len() == 0 || chars_eq(&segments[k], &dot) || chars_eq(&segments[k], &dot_dot) {
            return false;
        }
        k += 1;
    }
    true
}

fn canonical_repository_of(path: &[char]) -> (r: Option<&'static str>)
    ensures
        match r {
            Some(repository) => canonical_repository(path@) == Some(repository@),
            None => canonical_repository(path@) is None,
        },
{
    if starts_with(path, &chars_of("org/scala-lang/scala-parser-combinators_")) || starts_with(
        path,
        &chars_of("org/scala-lang/scala-swing_"),
    ) || starts_with(path, &chars_of("org/scala-lang/scala-xml_")) {
        Some(FORGE_MAVEN)
    } else if starts_with(path, &chars_of("net/fabricmc/")) {
        Some(FABRIC_MAVEN)
    } else if starts_with(path, &chars_of("org/quiltmc/")) {
        Some(QUILT_MAVEN)
    } else if starts_with(path, &chars_of("net/minecraftforge/")) || starts_with(path, &chars_of("cpw/mods/")) {
        Some(FORGE_MAVEN)
    } else if starts_with(path, &chars_of("net/neoforged/")) {
        Some(NEOFORGE_MAVEN)
    } else if starts_with(path, &chars_of("org/spongepowered/")) {
        Some(SPONGE_MAVEN)
    } else if starts_with(path, &chars_of("net/minecraft/launchwrapper/")) {
        Some(LIBRARIES_MAVEN)
    } else if starts_with(path, &chars_of("org/ow2/")) || starts_with(path, &chars_of("org/scala-lang/"))
        || starts_with(path, &chars_of("org/jline/")) || starts_with(path, &chars_of("jline/")) || starts_with(
        path,
        &chars_of("net/java/dev/jna/"),
    ) || starts_with(path, &chars_of("com/typesafe/")) {
        Some(MAVEN_CENTRAL)
    } else if starts_with(path, &chars_of("com/modrinth/daedalus/")) {
        Some(LAUNCHER_META_MAVEN)
    } else {
        None
    }
}

/// `repository` + `/` + `path`, as characters.
fn in_repository(repository: &str, path: &[char]) -> (r: Vec<char>)
    ensures
        r@ == repository@ + "/"@ + path@,
{
    let mut r = chars_of(repository);
    let mut slash = chars_of("/");
    let mut rest = slice_from(path, 0);
    assert(path@.skip(0) =~= path@);
    r.append(&mut slash);
    r.append(&mut rest);
    r
}

/// The canonical download URLs of an artifact.
pub fn legacy_library_canonical_urls(artifact_path: &str) -> (r: Vec<String>)
    ensures
        crate::text::views(r@) == canonical_urls(artifact_path@),
{
    let path = chars_of(artifact_path);
    let mut r: Vec<String> = Vec::new();
    match canonical_repository_of(&path) {
        Some(repository) => {
            let url = in_repository(repository, &path);
            r.push(string_from(&url));
            assert(crate::text::views(r@) =~= canonical_urls(artifact_path@));
        },
        None => {
            assert(crate::text::views(r@) =~= canonical_urls(artifact_path@));
        },
    }
    r
}

/// Trusted download URLs for a legacy library, in the order to try them (see
/// `legacy_download_urls`).
pub fn legacy_library_download_urls(repository: Option<&str>, artifact_path: &str) -> (r: Option<Vec<String>>)
    ensures
        match r {
            Some(urls) => legacy_download_urls(
                match repository {
                    Some(s) => Some(s@),
                    None => None,
                },
                artifact_path@,
            ) == Some(crate::text::views(urls@)),
            None => legacy_download_urls(
                match repository {
                    Some(s) => Some(s@),
                    None => None,
                },
                artifact_path@,
            ) is None,
        },
        plain_https_repository(
            match repository {
                Some(s) => s@,
                None => LIBRARIES_MAVEN@,
            },
            artifact_path@,
        ) && artifact_path_is_safe(artifact_path@) && plain_relative_reference(artifact_path@) ==> r is Some,
{
    let path = chars_of(artifact_path);
    if !path_is_safe(&path) {
        return None;
    }
    let repository = match repository {
        Some(r) => r,
        None => LIBRARIES_MAVEN,
    };
    let parts = match parse_url(repository) {
        Some(parts) => parts,
        None => return None,
    };
    if !(parts.scheme == "https".to_owned()) || !parts.has_host || chars_of(parts.username.as_str()).len() != 0
        || parts.has_password || parts.has_query || parts.has_fragment {
        return None;
    }
    let mut normalized = trim_end_matching(&chars_of(parts.path.as_str()), '/');
    normalized.push('/');
    proof {
        reveal_strlit("/");
        assert(normalized@ =~= trim_end_char(parts.path@, '/') + "/"@);
    }
    let base_path = string_from(&normalized);
    let declared = match declared_url(repository, base_path.as_str(), artifact_path) {
        Some(declared) => declared,
        None => return None,
    };
    let canonical = match canonical_repository_of(&path) {
        Some(repo) => Some(in_repository(repo, &path)),
        None => None,
    };
    let mut candidates: Vec<Vec<char>> = Vec::new();
    let declared_chars = chars_of(declared.as_str());
    let is_launcher_meta = chars_eq(&trim_end_matching(&chars_of(repository), '/'), &chars_of(LAUNCHER_META_MAVEN));
    if is_launcher_meta {
        match canonical {
            Some(url) => candidates.push(url),
            None => {},
        }
        candidates.push(declared_chars);
    } else {
        candidates.push(declared_chars);
        match canonical {
            Some(url) => candidates.push(url),
            None => {},
        }
    }
    let ghost spec_candidates = if trim_end_char(repository@, '/') == LAUNCHER_META_MAVEN@ {
        canonical_urls(path@).push(declared@)
    } else {
        seq![declared@] + canonical_urls(path@)
    };
    assert(char_views(candidates@) =~= spec_candidates);
    candidates.push(in_repository(LIBRARIES_MAVEN, &path));
    let ghost candidates_final = candidates@;
    let unique = dedup_chars(candidates);
    let mut urls: Vec<String> = Vec::new();
    let mut i: usize = 0;
    while i < unique.len()
        invariant
            i <= unique.len(),
            crate::text::views(urls@) == char_views(unique@).take(i as int),
        decreases unique.len() - i,
    {
        let ghost old_urls = urls@;
        let url = string_from(&unique[i]);
        urls.push(url);
        assert(crate::text::views(urls@) =~= crate::text::views(old_urls).push(url@));
        assert(char_views(unique@).take(i + 1) =~= char_views(unique@).take(i as int).push(unique@[i as int]@));
        i += 1;
    }
    assert(char_views(unique@).take(unique.len() as int) =~= char_views(unique@));
    assert(char_views(candidates_final) =~= spec_candidates.push(LIBRARIES_MAVEN@ + "/"@ + artifact_path@));
    Some(urls)
}

/// The download candidates of a legacy library never repeat a URL, and the
/// Minecraft libraries URL of the artifact is always one of them.
pub proof fn law_legacy_candidates_are_distinct_and_include_libraries(repository: Option<Seq<char>>, path: Seq<char>)
    requires
        legacy_download_urls(repository, path) is Some,
    ensures
        legacy_download_urls(repository, path)->0.no_duplicates(),
        legacy_download_urls(repository, path)->0.contains(LIBRARIES_MAVEN@ + "/"@ + path),
{
    let repo = match repository {
        Some(r) => r,
        None => LIBRARIES_MAVEN@,
    };
    let parts = parsed_url(repo)->0;
    let declared = url_declared(repo, trim_end_char(parts.6, '/') + "/"@, path)->0;
    let canonical = canonical_urls(path);
    let candidates = if trim_end_char(repo, '/') == LAUNCHER_META_MAVEN@ {
        canonical.push(declared)
    } else {
        seq![declared] + canonical
    };
    let all = candidates.push(LIBRARIES_MAVEN@ + "/"@ + path);
    crate::text::lemma_dedup_seq(all);
    assert(all[all.len() - 1] == LIBRARIES_MAVEN@ + "/"@ + path);
    assert(all.contains(LIBRARIES_MAVEN@ + "/"@ + path));
}

/// Two prefixes that differ at a position both reach cannot both start a path.
proof fn lemma_prefixes_differ(path: Seq<char>, p: Seq<char>, q: Seq<char>, k: int)
    requires
        has_prefix(path, p),
        0 <= k < p.len(),
        k < q.len(),
        p[k] != q[k],
    ensures
        !has_prefix(path, q),
{
    assert(path.take(p.len() as int)[k] == path[k]);
    if has_prefix(path, q) {
        assert(path.take(q.len() as int)[k] == path[k]);
    }
}

/// Artifacts under `net/minecraftforge/` or `cpw/mods/` are canonically
/// hosted on the Forge Maven.
pub proof fn law_forge_artifacts_are_hosted_on_forge_maven(path: Seq<char>)
    requires
        has_prefix(path, "net/minecraftforge/"@) || has_prefix(path, "cpw/mods/"@),
    ensures
        canonical_repository(path) == Some(FORGE_MAVEN@),
{
    reveal_strlit("net/minecraftforge/");
    reveal_strlit("cpw/mods/");
    reveal_strlit("org/scala-lang/scala-parser-combinators_");
    reveal_strlit("org/scala-lang/scala-swing_");
    reveal_strlit("org/scala-lang/scala-xml_");
    reveal_strlit("net/fabricmc/");
    reveal_strlit("org/quiltmc/");
    let p = if has_prefix(path, "net/minecraftforge/"@) { "net/minecraftforge/"@ } else { "cpw/mods/"@ };
    let k: int = if has_prefix(path, "net/minecraftforge/"@) { 4 } else { 0 };
    lemma_prefixes_differ(path, p, "org/scala-lang/scala-parser-combinators_"@, 0);
    lemma_prefixes_differ(path, p, "org/scala-lang/scala-swing_"@, 0);
    lemma_prefixes_differ(path, p, "org/scala-lang/scala-xml_"@, 0);
    lemma_prefixes_differ(path, p, "net/fabricmc/"@, k);
    lemma_prefixes_differ(path, p, "org/quiltmc/"@, 0);
}

/// Fabric artifacts are canonically hosted on the Fabric Maven, Quilt
/// artifacts on the Quilt Maven, and NeoForge artifacts on the NeoForged
/// Maven.
pub proof fn law_loader_artifacts_are_hosted_on_their_loader_maven(path: Seq<char>)
    ensures
        has_prefix(path, "net/fabricmc/"@) ==> canonical_repository(path) == Some(FABRIC_MAVEN@),
        has_prefix(path, "org/quiltmc/"@) ==> canonical_repository(path) == Some(QUILT_MAVEN@),
        has_prefix(path, "net/neoforged/"@) ==> canonical_repository(path) == Some(NEOFORGE_MAVEN@),
{
    reveal_strlit("net/fabricmc/");
    reveal_strlit("org/quiltmc/");
    reveal_strlit("net/neoforged/");
    reveal_strlit("net/minecraftforge/");
    reveal_strlit("cpw/mods/");
    reveal_strlit("org/scala-lang/scala-parser-combinators_");
    reveal_strlit("org/scala-lang/scala-swing_");
    reveal_strlit("org/scala-lang/scala-xml_");
    if has_prefix(path, "net/fabricmc/"@) {
        let p = "net/fabricmc/"@;
        lemma_prefixes_differ(path, p, "org/scala-lang/scala-parser-combinators_"@, 0);
        lemma_prefixes_differ(path, p, "org/scala-lang/scala-swing_"@, 0);
        lemma_prefixes_differ(path, p, "org/scala-lang/scala-xml_"@, 0);
    }
    if has_prefix(path, "org/quiltmc/"@) {
        let p = "org/quiltmc/"@;
        lemma_prefixes_differ(path, p, "org/scala-lang/scala-parser-combinators_"@, 4);
        lemma_prefixes_differ(path, p, "org/scala-lang/scala-swing_"@, 4);
        lemma_prefixes_differ(path, p, "org/scala-lang/scala-xml_"@, 4);
        lemma_prefixes_differ(path, p, "net/fabricmc/"@, 0);
    }
    if has_prefix(path, "net/neoforged/"@) {
        let p = "net/neoforged/"@;
        lemma_prefixes_differ(path, p, "org/scala-lang/scala-parser-combinators_"@, 0);
        lemma_prefixes_differ(path, p, "org/scala-lang/scala-swing_"@, 0);
        lemma_prefixes_differ(path, p, "org/scala-lang/scala-xml_"@, 0);
        lemma_prefixes_differ(path, p, "net/fabricmc/"@, 4);
        lemma_prefixes_differ(path, p, "org/quiltmc/"@, 0);
        lemma_prefixes_differ(path, p, "net/minecraftforge/"@, 4);
        lemma_prefixes_differ(path, p, "cpw/mods/"@, 0);
    }
}

/// When an artifact has a canonical repository, its URL there is one of the
/// download candidates; when the declared repository is the launcher-meta
/// mirror, it is the first one tried.
pub proof fn law_canonical_url_is_a_candidate(repository: Option<Seq<char>>, path: Seq<char>)
    requires
        legacy_download_urls(repository, path) is Some,
        canonical_repository(path) is Some,
    ensures
        legacy_download_urls(repository, path)->0.contains(canonical_repository(path)->0 + "/"@ + path),
        repository matches Some(r) && trim_end_char(r, '/') == LAUNCHER_META_MAVEN@ ==> legacy_download_urls(
            repository,
            path,
        )->0[0] == canonical_repository(path)->0 + "/"@ + path,
{
    let repo = match repository {
        Some(r) => r,
        None => LIBRARIES_MAVEN@,
    };
    let parts = parsed_url(repo)->0;
    let declared = url_declared(repo, trim_end_char(parts.6, '/') + "/"@, path)->0;
    let canonical = canonical_urls(path);
    let url = canonical_repository(path)->0 + "/"@ + path;
    let candidates = if trim_end_char(repo, '/') == LAUNCHER_META_MAVEN@ {
        canonical.push(declared)
    } else {
        seq![declared] + canonical
    };
    let all = candidates.push(LIBRARIES_MAVEN@ + "/"@ + path);
    crate::text::lemma_dedup_seq(all);
    crate::text::lemma_dedup_seq_first(all);
    assert(canonical =~= seq![url]);
    if trim_end_char(repo, '/') == LAUNCHER_META_MAVEN@ {
        assert(all[0] == url);
    } else {
        assert(all[1] == url);
    }
    assert(all.contains(url));
}

/// A Forge artifact requested through the launcher-meta mirror is fetched
/// from the Forge Maven first.
pub proof fn law_forge_artifacts_via_mirror_try_forge_maven_first(repository: Seq<char>, path: Seq<char>)
    requires
        legacy_download_urls(Some(repository), path) is Some,
        trim_end_char(repository, '/') == LAUNCHER_META_MAVEN@,
        has_prefix(path, "net/minecraftforge/"@) || has_prefix(path, "cpw/mods/"@),
    ensures
        legacy_download_urls(Some(repository), path)->0[0] == FORGE_MAVEN@ + "/"@ + path,
{
    law_forge_artifacts_are_hosted_on_forge_maven(path);
    law_canonical_url_is_a_candidate(Some(repository), path);
}

/// An artifact path that could leave the repository root is never fetched.
pub proof fn law_unsafe_artifact_paths_are_never_fetched(repository: Option<Seq<char>>, path: Seq<char>)
    requires
        !artifact_path_is_safe(path),
    ensures
        legacy_download_urls(repository, path) is None,
{
}

} // verus!

verus! {

/// How a downloaded file's content is checked beyond its hash and size.
#[derive(Clone, Copy, Debug, PartialEq, Eq, Structural)]
pub enum ContentValidation {
    Unchecked,
    Jar,
    Json,
}

/// Legacy libraries ending in `.jar` are checked as jars; others are not checked.
pub fn legacy_library_content_validation(artifact_path: &str) -> (r: ContentValidation)
    ensures
        r == (if crate::text::has_suffix(artifact_path@, ".jar"@) {
            ContentValidation::Jar
        } else {
            ContentValidation::Unchecked
        }),
{
    if crate::text::ends_with(&chars_of(artifact_path), &chars_of(".jar")) {
        ContentValidation::Jar
    } else {
        ContentValidation::Unchecked
    }
}

pub open spec fn is_hex_digit(c: char) -> bool {
    ||| '0' <= c <= '9'
    ||| 'a' <= c <= 'f'
    ||| 'A' <= c <= 'F'
}

/// A SHA-1 checksum as written in a library's `checksums`: 40 ASCII hex digits.
pub open spec fn is_sha1_checksum(s: Seq<char>) -> bool {
    s.len() == 40 && forall|k: int| 0 <= k < s.len() ==> is_hex_digit(#[trigger] s[k])
}

/// The first well-formed SHA-1 checksum among `checksums`.
pub open spec fn first_sha1(checksums: Seq<Seq<char>>) -> Option<Seq<char>>
    decreases checksums.len(),
{
    if checksums.len() == 0 {
        None
    } else if is_sha1_checksum(checksums[0]) {
        Some(checksums[0])
    } else {
        first_sha1(checksums.drop_first())
    }
}

fn sha1_checksum(s: &[char]) -> (r: bool)
    ensures
        r == is_sha1_checksum(s@),
{
    if s.len() != 40 {
        return false;
    }
    let mut i: usize = 0;
    while i < s.len()
        invariant
            i <= s.len(),
            forall|k: int| 0 <= k < i ==> is_hex_digit(#[trigger] s@[k]),
        decreases s.len() - i,
    {
        let c = s[i];
        if !(('0' <= c && c <= '9') || ('a' <= c && c <= 'f') || ('A' <= c && c <= 'F')) {
            assert(!is_hex_digit(s@[i as int]));
            return false;
        }
        i += 1;
    }
    true
}

/// The SHA-1 checksum a legacy library declares: the first of its
/// `checksums` that is 40 ASCII hex digits.
pub fn legacy_library_sha1(checksums: Option<&Vec<String>>) -> (r: Option<String>)
    ensures
        opt_view(r) == match checksums {
            Some(c) => first_sha1(views(c@)),
            None => None,
        },
{
    let list = match checksums {
        Some(c) => c,
        None => return None,
    };
    assert(checksums == Some(list));
    let mut i: usize = 0;
    assert(views(list@).skip(0) =~= views(list@));
    while i < list.len()
        invariant
            i <= list.len(),
            checksums == Some(list),
            first_sha1(views(list@)) == first_sha1(views(list@).skip(i as int)),
        decreases list.len() - i,
    {
        assert(views(list@).skip(i as int)[0] == list@[i as int]@);
        if sha1_checksum(&chars_of(list[i].as_str())) {
            assert(first_sha1(views(list@).skip(i as int)) == Some(list@[i as int]@));
            return Some(list[i].clone());
        }
        assert(views(list@).skip(i as int).drop_first() =~= views(list@).skip(i + 1));
        i += 1;
    }
    None
}

/// A LiteLoader library: Maven coordinates `com.mumfrey:liteloader:<version>...`.
pub open spec fn liteloader_coordinates(name: Seq<char>) -> bool {
    let parts = split_on(name, ':');
    parts.len() >= 3 && parts[0] == "com.mumfrey"@ && parts[1] == "liteloader"@
}

pub fn is_liteloader_library(name: &str) -> (r: bool)
    ensures
        r == liteloader_coordinates(name@),
{
    let parts = split_chars(&chars_of(name), ':');
    parts.len() >= 3 && chars_eq(&parts[0], &chars_of("com.mumfrey")) && chars_eq(&parts[1], &chars_of("liteloader"))
}

pub open spec fn machina_lwjgl_release() -> Seq<char> {
    "https://github.com/MinecraftMachina/lwjgl/releases/download/2.9.4-20150209-mmachina.2/"@
}

pub open spec fn mojang_lwjgl_path() -> Seq<char> {
    "https://libraries.minecraft.net/org/lwjgl/lwjgl/lwjgl-platform/2.9.4-nightly-20150209/"@
}

/// The URLs to try for a Minecraft library: the URL itself, then, for the
/// MinecraftMachina LWJGL release, the same file in Mojang's repository.
pub open spec fn library_mirrors(url: Seq<char>) -> Seq<Seq<char>> {
    if has_prefix(url, machina_lwjgl_release()) {
        seq![url, mojang_lwjgl_path() + url.skip(machina_lwjgl_release().len() as int)]
    } else {
        seq![url]
    }
}

pub fn minecraft_library_mirrors(url: &str) -> (r: Vec<String>)
    ensures
        views(r@) == library_mirrors(url@),
{
    let release = chars_of("https://github.com/MinecraftMachina/lwjgl/releases/download/2.9.4-20150209-mmachina.2/");
    let url_chars = chars_of(url);
    let mut r: Vec<String> = Vec::new();
    r.push(url.to_owned());
    if starts_with(&url_chars, &release) {
        let mut mirror = chars_of("https://libraries.minecraft.net/org/lwjgl/lwjgl/lwjgl-platform/2.9.4-nightly-20150209/");
        let mut rest = slice_from(&url_chars, release.len());
        mirror.append(&mut rest);
        r.push(string_from(&mirror));
    }
    assert(views(r@) =~= library_mirrors(url@));
    r
}

/// A Maven artifact path with a classifier: `-<classifier>` goes before the
/// last extension, or at the end when there is no `.`.
pub open spec fn classified_path(artifact_path: Seq<char>, classifier: Seq<char>) -> Seq<char> {
    let ext = after_last(artifact_path, '.');
    if ext.len() < artifact_path.len() {
        artifact_path.take(artifact_path.len() - ext.len() - 1) + "-"@ + classifier + "."@ + ext
    } else {
        artifact_path + "-"@ + classifier
    }
}

proof fn lemma_after_last_len(s: Seq<char>, c: char)
    ensures
        after_last(s, c).len() <= s.len(),
        after_last(s, c) == s.skip(s.len() - after_last(s, c).len()),
        after_last(s, c).len() < s.len() ==> s[s.len() - after_last(s, c).len() - 1] == c,
    decreases s.len(),
{
    if s.len() > 0 && s.last() != c {
        lemma_after_last_len(s.drop_last(), c);
        assert(after_last(s, c) =~= s.skip(s.len() - after_last(s, c).len()));
    } else if s.len() > 0 {
        assert(s.skip(s.len() as int) =~= after_last(s, c));
    }
}

/// The artifact path of a library's classified file (e.g. its natives for a
/// platform), given the library's plain artifact path.
pub fn classified_artifact_path(artifact_path: &str, classifier: &str) -> (r: String)
    ensures
        r@ == classified_path(artifact_path@, classifier@),
{
    let path = chars_of(artifact_path);
    let ext = crate::text::suffix_after_last(&path, '.');
    proof {
        lemma_after_last_len(path@, '.');
        reveal_strlit("-");
        reveal_strlit(".");
    }
    let mut r: Vec<char>;
    if ext.len() < path.len() {
        r = crate::text::slice_to(&path, path.len() - ext.len() - 1);
        r.push('-');
        let mut c = chars_of(classifier);
        r.append(&mut c);
        r.push('.');
        let mut e = slice_from(&ext, 0);
        assert(ext@.skip(0) =~= ext@);
        r.append(&mut e);
        assert(r@ =~= classified_path(artifact_path@, classifier@));
    } else {
        r = slice_from(&path, 0);
        assert(path@.skip(0) =~= path@);
        r.push('-');
        let mut c = chars_of(classifier);
        r.append(&mut c);
        assert(r@ =~= classified_path(artifact_path@, classifier@));
    }
    string_from(&r)
}

/// A file is fetched when it is missing or a refetch is forced.
pub fn should_download(path_exists: bool, force: bool) -> (r: bool)
    ensures
        r == (!path_exists || force),
{
    !path_exists || force
}

/// The format written to the marker file beside a derived version profile.
pub const DERIVED_VERSION_CACHE_FORMAT: &'static str = "1";

/// A marker file's contents name the current format, up to surrounding white
/// space; a missing marker does not.
pub open spec fn marker_is_current(marker_contents: Option<Seq<char>>) -> bool {
    match marker_contents {
        Some(text) => crate::text::trim_white(text) == DERIVED_VERSION_CACHE_FORMAT@,
        None => false,
    }
}

/// A derived version profile is current when its format marker file holds
/// the current format, `1`, up to surrounding white space.
pub fn derived_version_cache_is_current(marker_contents: Option<&str>) -> (r: bool)
    ensures
        r == marker_is_current(
            match marker_contents {
                Some(text) => Some(text@),
                None => None,
            },
        ),
{
    match marker_contents {
        Some(text) => chars_eq(&crate::text::trim(&chars_of(text)), &chars_of(DERIVED_VERSION_CACHE_FORMAT)),
        None => false,
    }
}

} // verus!

verus! {

pub const MINECRAFT_DOWNLOAD_PROGRESS_MIN_BYTES: u64 = 262144;

/// A progress report to emit: `current` of `total` bytes.
#[derive(Clone, Copy, Debug, PartialEq, Eq, Structural)]
pub struct ProgressUpdate {
    pub current: u64,
    pub total: u64,
}

/// The least change worth reporting: a half percent of the total, and at
/// least 256 KiB.
pub open spec fn min_report_delta(total: u64) -> int {
    if total / 200 >= MINECRAFT_DOWNLOAD_PROGRESS_MIN_BYTES {
        (total / 200) as int
    } else {
        MINECRAFT_DOWNLOAD_PROGRESS_MIN_BYTES as int
    }
}

/// A report is due when there is a total and the report is forced, the
/// download is complete, or enough bytes came in since the last report.
pub open spec fn report_due(current: u64, total: u64, last_reported: u64, force: bool) -> bool {
    total > 0 && (force || current >= total || (if current >= last_reported {
        current - last_reported
    } else {
        0
    }) >= min_report_delta(total))
}

/// The byte count left after rolling back `bytes`: never below zero.
pub open spec fn rolled_back(current: u64, bytes: u64) -> u64 {
    if current >= bytes {
        (current - bytes) as u64
    } else {
        0u64
    }
}

/// Rolling back the bytes of an abandoned attempt restores the count from
/// before that attempt, so retries do not inflate the progress bar.
pub proof fn law_rollback_restores_count(current: u64, bytes: u64)
    requires
        current + bytes <= u64::MAX,
    ensures
        rolled_back((current + bytes) as u64, bytes) == current,
{
}

/// The counters behind the Minecraft download progress bar: bytes done, the
/// total to download, the last reported count, the download source last
/// used, and how many mirror fallbacks happened. Each operation returns the
/// report to emit, if any.
pub struct MinecraftDownloadProgress {
    pub current: u64,
    pub total: u64,
    pub last_reported: u64,
    pub source: Option<String>,
    pub fallback_count: u64,
}

impl MinecraftDownloadProgress {
    /// Starts at zero bytes; reports `0` of `total` at once when there is a total.
    pub fn new(total: u64) -> (r: (Self, Option<ProgressUpdate>))
        ensures
            r.0.current == 0,
            r.0.total == total,
            r.0.last_reported == 0,
            r.0.source is None,
            r.0.fallback_count == 0,
            r.1 == (if total > 0 {
                Some(ProgressUpdate { current: 0, total })
            } else {
                None
            }),
    {
        let progress = MinecraftDownloadProgress {
            current: 0,
            total,
            last_reported: 0,
            source: None,
            fallback_count: 0,
        };
        let update = if total > 0 {
            Some(ProgressUpdate { current: 0, total })
        } else {
            None
        };
        (progress, update)
    }

    /// Reports `current` of `total` when due, remembering `current` as the
    /// last reported count. The reported count never exceeds the total.
    pub fn emit_if_needed(&mut self, current: u64, total: u64, force: bool) -> (r: Option<ProgressUpdate>)
        ensures
            r == (if report_due(current, total, old(self).last_reported, force) {
                Some(ProgressUpdate { current: if current <= total { current } else { total }, total })
            } else {
                None
            }),
            final(self).last_reported == (if report_due(current, total, old(self).last_reported, force) {
                current
            } else {
                old(self).last_reported
            }),
            final(self).current == old(self).current,
            final(self).total == old(self).total,
            final(self).source == old(self).source,
            final(self).fallback_count == old(self).fallback_count,
    {
        if total == 0 {
            return None;
        }
        let share = total / 200;
        let min_delta = if share >= MINECRAFT_DOWNLOAD_PROGRESS_MIN_BYTES {
            share
        } else {
            MINECRAFT_DOWNLOAD_PROGRESS_MIN_BYTES
        };
        if !force && current < total && current.saturating_sub(self.last_reported) < min_delta {
            return None;
        }
        self.last_reported = current;
        Some(ProgressUpdate { current: if current <= total { current } else { total }, total })
    }

    /// Grows the total by `extra` bytes and reports (forced) when it grew.
    pub fn add_total(&mut self, extra: u64) -> (r: Option<ProgressUpdate>)
        requires
            old(self).total + extra <= u64::MAX,
        ensures
            final(self).total == old(self).total + extra,
            final(self).current == old(self).current,
            r == (if extra > 0 {
                Some(ProgressUpdate {
                    current: if old(self).current <= final(self).total {
                        old(self).current
                    } else {
                        final(self).total
                    },
                    total: final(self).total,
                })
            } else {
                None
            }),
            final(self).last_reported == (if r is Some {
                final(self).current
            } else {
                old(self).last_reported
            }),
            final(self).source == old(self).source,
            final(self).fallback_count == old(self).fallback_count,
    {
        if extra == 0 {
            return None;
        }
        self.total = self.total + extra;
        let (current, total) = (self.current, self.total);
        self.emit_if_needed(current, total, true)
    }

    /// Counts `bytes` more as downloaded and reports when due.
    pub fn add_bytes(&mut self, bytes: u64) -> (r: Option<ProgressUpdate>)
        requires
            old(self).current + bytes <= u64::MAX,
        ensures
            final(self).current == old(self).current + bytes,
            final(self).total == old(self).total,
            r == (if bytes > 0 && report_due(final(self).current, old(self).total, old(self).last_reported, false) {
                Some(ProgressUpdate {
                    current: if final(self).current <= old(self).total {
                        final(self).current
                    } else {
                        old(self).total
                    },
                    total: old(self).total,
                })
            } else {
                None
            }),
            final(self).last_reported == (if r is Some {
                final(self).current
            } else {
                old(self).last_reported
            }),
            final(self).source == old(self).source,
            final(self).fallback_count == old(self).fallback_count,
    {
        if bytes == 0 {
            return None;
        }
        self.current = self.current + bytes;
        let (current, total) = (self.current, self.total);
        self.emit_if_needed(current, total, false)
    }

    /// Rolls back `bytes` counted for an abandoned download attempt (never
    /// below zero) and reports (forced) when something was rolled back.
    pub fn sub_bytes(&mut self, bytes: u64) -> (r: Option<ProgressUpdate>)
        ensures
            final(self).current == rolled_back(old(self).current, bytes),
            final(self).total == old(self).total,
            r == (if bytes > 0 && old(self).total > 0 {
                Some(ProgressUpdate {
                    current: if final(self).current <= old(self).total {
                        final(self).current
                    } else {
                        old(self).total
                    },
                    total: old(self).total,
                })
            } else {
                None
            }),
            final(self).last_reported == (if r is Some {
                final(self).current
            } else {
                old(self).last_reported
            }),
            final(self).source == old(self).source,
            final(self).fallback_count == old(self).fallback_count,
    {
        if bytes == 0 {
            return None;
        }
        self.current = self.current.saturating_sub(bytes);
        let (current, total) = (self.current, self.total);
        self.emit_if_needed(current, total, true)
    }

    /// Follows one file transfer whose byte counter moved from `previous` to
    /// `downloaded`: a step forward counts the new bytes; a step back (a failed
    /// attempt restarted) rolls back the abandoned ones.
    pub fn observe_transfer(&mut self, previous: u64, downloaded: u64) -> (r: Option<ProgressUpdate>)
        requires
            downloaded >= previous ==> old(self).current + (downloaded - previous) <= u64::MAX,
        ensures
            final(self).current == (if downloaded >= previous {
                (old(self).current + (downloaded - previous)) as u64
            } else {
                rolled_back(old(self).current, (previous - downloaded) as u64)
            }),
            final(self).total == old(self).total,
            r == (if downloaded > previous && report_due(final(self).current, old(self).total, old(self).last_reported, false)
                || downloaded < previous && old(self).total > 0 {
                Some(ProgressUpdate {
                    current: if final(self).current <= old(self).total {
                        final(self).current
                    } else {
                        old(self).total
                    },
                    total: old(self).total,
                })
            } else {
                None
            }),
            final(self).last_reported == (if r is Some {
                final(self).current
            } else {
                old(self).last_reported
            }),
            final(self).source == old(self).source,
            final(self).fallback_count == old(self).fallback_count,
    {
        if downloaded >= previous {
            self.add_bytes(downloaded - previous)
        } else {
            self.sub_bytes(previous - downloaded)
        }
    }

    /// Once a file of `expected_size` bytes is done, counts the part of it that
    /// the transfer did not report (none when more was reported).
    pub fn complete_transfer(&mut self, expected_size: Option<u64>, downloaded: u64) -> (r: Option<ProgressUpdate>)
        requires
            expected_size matches Some(e) ==> (e > downloaded ==> old(self).current + (e - downloaded) <= u64::MAX),
        ensures
            final(self).current == (match expected_size {
                Some(e) if e > downloaded => (old(self).current + (e - downloaded)) as u64,
                _ => old(self).current,
            }),
            final(self).total == old(self).total,
            r == (match expected_size {
                Some(e) if e > downloaded && report_due(final(self).current, old(self).total, old(self).last_reported, false) => Some(
                    ProgressUpdate {
                        current: if final(self).current <= old(self).total {
                            final(self).current
                        } else {
                            old(self).total
                        },
                        total: old(self).total,
                    },
                ),
                _ => None,
            }),
            final(self).last_reported == (if r is Some {
                final(self).current
            } else {
                old(self).last_reported
            }),
            final(self).source == old(self).source,
            final(self).fallback_count == old(self).fallback_count,
    {
        match expected_size {
            Some(e) => self.add_bytes(e.saturating_sub(downloaded)),
            None => None,
        }
    }

    /// Records a finished download: its source when at least one attempt was
    /// made, and its fallback count (wrapping on overflow, as an atomic
    /// counter does).
    pub fn record_download_result(&mut self, attempts: u64, fallback_count: u64, source: String)
        ensures
            final(self).source == (if attempts > 0 {
                Some(source)
            } else {
                old(self).source
            }),
            final(self).fallback_count == (if old(self).fallback_count + fallback_count > u64::MAX {
                old(self).fallback_count + fallback_count - (u64::MAX + 1)
            } else {
                old(self).fallback_count + fallback_count
            }),
            final(self).current == old(self).current,
            final(self).total == old(self).total,
            final(self).last_reported == old(self).last_reported,
    {
        if attempts > 0 {
            self.source = Some(source);
        }
        self.fallback_count = self.fallback_count.wrapping_add(fallback_count);
    }

    /// The download metrics to record at the end: the last source and the
    /// fallback count, when a source is known.
    pub fn finish(&self) -> (r: Option<(String, u64)>)
        ensures
            r == match self.source {
                Some(source) => Some((source, self.fallback_count)),
                None => None,
            },
    {
        match &self.source {
            Some(source) => Some((source.clone(), self.fallback_count)),
            None => None,
        }
    }
}

} // verus!

verus! {

/// Whether the library at index `i` downloads its native archive: libraries
/// without a native archive digest (`None`, or an empty digest) always count;
/// one with a digest counts unless an earlier library has the same digest.
pub open spec fn native_download_kept(hashes: Seq<Option<Seq<char>>>, i: int) -> bool {
    match hashes[i] {
        None => true,
        Some(h) => h.len() == 0 || !(exists|j: int| 0 <= j < i && hashes[j] == Some(h)),
    }
}

pub open spec fn opt_views(v: Seq<Option<String>>) -> Seq<Option<Seq<char>>> {
    v.map_values(|o: Option<String>| opt_view(o))
}

/// Which libraries to keep so that each native archive (by digest) is
/// downloaded and extracted once. `native_hashes[i]` is the digest of library
/// `i`'s native archive for this platform, when it has one that applies.
pub fn first_native_archives(native_hashes: &[Option<String>]) -> (keep: Vec<bool>)
    ensures
        keep.len() == native_hashes.len(),
        forall|i: int| 0 <= i < keep.len() ==> #[trigger] keep[i] == native_download_kept(opt_views(native_hashes@), i),
{
    let ghost hs = opt_views(native_hashes@);
    let mut seen: Vec<String> = Vec::new();
    let mut keep: Vec<bool> = Vec::new();
    let mut i: usize = 0;
    while i < native_hashes.len()
        invariant
            i <= native_hashes.len(),
            hs == opt_views(native_hashes@),
            keep.len() == i,
            forall|k: int| 0 <= k < i ==> #[trigger] keep[k] == native_download_kept(hs, k),
            forall|h: Seq<char>|
                #[trigger] views(seen@).contains(h) <==> (h.len() > 0 && exists|j: int| 0 <= j < i && hs[j] == Some(h)),
        decreases native_hashes.len() - i,
    {
        let ghost old_seen = seen@;
        assert(hs[i as int] == opt_view(native_hashes@[i as int]));
        match &native_hashes[i] {
            None => {
                keep.push(true);
            },
            Some(h) => {
                if chars_of(h.as_str()).len() == 0 {
                    keep.push(true);
                } else if crate::text::contains_string(&seen, h) {
                    keep.push(false);
                } else {
                    keep.push(true);
                    seen.push(h.clone());
                    assert(views(seen@) =~= views(old_seen).push(h@));
                }
            },
        }
        assert forall|h: Seq<char>|
            #[trigger] views(seen@).contains(h) <==> (h.len() > 0 && exists|j: int| 0 <= j < i + 1 && hs[j] == Some(h)) by {
            if views(seen@).contains(h) && !views(old_seen).contains(h) {
                let m = choose|m: int| 0 <= m < views(seen@).len() && views(seen@)[m] == h;
                assert(m == old_seen.len());
                assert(hs[i as int] == Some(h));
            }
            if views(old_seen).contains(h) {
                let m = choose|m: int| 0 <= m < views(old_seen).len() && views(old_seen)[m] == h;
                assert(views(seen@)[m] == h);
            }
            if h.len() > 0 && (exists|j: int| 0 <= j < i + 1 && hs[j] == Some(h)) {
                let j = choose|j: int| 0 <= j < i + 1 && hs[j] == Some(h);
                if j == i && !views(old_seen).contains(h) {
                    assert(views(seen@)[old_seen.len() as int] == h);
                }
            }
        }
        i += 1;
    }
    keep
}

/// Among kept libraries, native archive digests never repeat.
pub proof fn law_kept_native_archives_are_distinct(hashes: Seq<Option<Seq<char>>>, i: int, j: int)
    requires
        0 <= i < j < hashes.len(),
        native_download_kept(hashes, i),
        native_download_kept(hashes, j),
        hashes[i] is Some,
        hashes[i]->0.len() > 0,
    ensures
        hashes[i] != hashes[j],
{
}

} // verus!
