//! Forge / NeoForge `mods.toml`: whether a jar must stay off a dedicated
//! server, and the mod identity it declares.

use vstd::prelude::*;
use crate::text::{
    ascii_lower, char_views, chars_eq, chars_of, find_first, first_occurrence_from, has_prefix,
    opt_view, slice_from, split_chars, split_on, starts_with, string_from, to_ascii_lower, trim,
    trim_white,
};
use crate::mod_metadata::{
    dependency_view, dependency_views, env_dependency, is_env_dependency_id, opt_metadata_view,
    LocalModDependency, LocalModMetadata, LocalModMetadataView,
};
use crate::text::views;
use crate::jar::{
    has_transformer_or_coremod, read_jar_manifest, zip_entry_text, zip_has_entry, JAR_MANIFEST,
    LEGACY_COREMODS, TRANSFORMER_SERVICE,
};

verus! {

/// A parsed `mods.toml`: the `[[mods]]` array of tables plus root metadata.
pub struct ModsToml {
    /// Name of the mod loader (e.g. "javafml").
    pub mod_loader: Option<String>,
    /// Required loader version range (e.g. "[52,)"); for Forge this is the Forge version.
    pub loader_version: Option<String>,
    pub mods: Option<Vec<ModsTomlEntry>>,
    /// The `[[dependencies.<modId>]]` arrays, each under its mod id; a mod id
    /// occurs at most once.
    pub dependencies: Option<Vec<(String, Vec<ForgeDependencyEntry>)>>,
}

/// One `[[mods]]` table.
pub struct ModsTomlEntry {
    pub mod_id: Option<String>,
    pub display_name: Option<String>,
    pub version: Option<String>,
    pub description: Option<String>,
    pub authors: Option<String>,
    pub logo_file: Option<String>,
    pub display_url: Option<String>,
    pub credits: Option<String>,
    /// `side = "CLIENT"` marks a mod that must never run on a dedicated
    /// server; absent means both sides.
    pub side: Option<String>,
}

/// One entry of a `[[dependencies.<modId>]]` array.
pub struct ForgeDependencyEntry {
    pub mod_id: Option<String>,
    pub mandatory: Option<bool>,
    pub version_range: Option<String>,
    pub ordering: Option<String>,
    pub side: Option<String>,
}

/// A side value that names the client, compared ASCII-case-insensitively.
pub open spec fn is_client_side(side: Option<String>) -> bool {
    match side {
        Some(s) => ascii_lower(s@) == "client"@,
        None => false,
    }
}

/// The ids of the game itself and of its loaders, compared ASCII-case-insensitively.
pub open spec fn is_game_dependency_id(id: Seq<char>) -> bool {
    ||| ascii_lower(id) == "minecraft"@
    ||| ascii_lower(id) == "forge"@
    ||| ascii_lower(id) == "neoforge"@
}

/// A dependency on the game or its loader that holds on the client only.
pub open spec fn is_client_game_dependency(dep: ForgeDependencyEntry) -> bool {
    match dep.mod_id {
        Some(id) => is_game_dependency_id(id@) && is_client_side(dep.side),
        None => false,
    }
}

/// A `mods.toml` that declares its mod client-only: a `[[mods]]` entry with
/// the client side, or a client-side dependency on the game or its loader.
pub open spec fn declares_client_only(t: ModsToml) -> bool {
    ||| match t.mods {
        Some(m) => exists|i: int| 0 <= i < m@.len() && is_client_side(#[trigger] m@[i].side),
        None => false,
    }
    ||| match t.dependencies {
        Some(d) => exists|i: int, j: int|
            0 <= i < d@.len() && 0 <= j < d@[i].1@.len() && is_client_game_dependency(
                #[trigger] d@[i].1@[j],
            ),
        None => false,
    }
}

fn side_is_client(side: &Option<String>) -> (r: bool)
    ensures
        r == is_client_side(*side),
{
    match side {
        Some(s) => {
            let lower = to_ascii_lower(&chars_of(s.as_str()));
            chars_eq(&lower, &chars_of("client"))
        },
        None => false,
    }
}

fn is_client_game_dependency_entry(dep: &ForgeDependencyEntry) -> (r: bool)
    ensures
        r == is_client_game_dependency(*dep),
{
    match &dep.mod_id {
        Some(id) => {
            let lower = to_ascii_lower(&chars_of(id.as_str()));
            let game = chars_eq(&lower, &chars_of("minecraft")) || chars_eq(&lower, &chars_of("forge"))
                || chars_eq(&lower, &chars_of("neoforge"));
            game && side_is_client(&dep.side)
        },
        None => false,
    }
}

/// Whether the parsed `mods.toml` declares its mod client-only.
pub fn mods_toml_declares_client_only(t: &ModsToml) -> (r: bool)
    ensures
        r == declares_client_only(*t),
{
    if let Some(mods) = &t.mods {
        let mut i: usize = 0;
        while i < mods.len()
            invariant
                i <= mods.len(),
                t.mods == Some(*mods),
                forall|k: int| 0 <= k < i ==> !is_client_side(#[trigger] mods@[k].side),
            decreases mods.len() - i,
        {
            if side_is_client(&mods[i].side) {
                assert(is_client_side(mods@[i as int].side));
                return true;
            }
            i += 1;
        }
    }
    if let Some(deps) = &t.dependencies {
        let mut i: usize = 0;
        while i < deps.len()
            invariant
                i <= deps.len(),
                t.mods matches Some(m) ==> forall|k: int| 0 <= k < m@.len() ==> !is_client_side(#[trigger] m@[k].side),
                t.dependencies == Some(*deps),
                forall|a: int, b: int|
                    0 <= a < i && 0 <= b < deps@[a].1@.len() ==> !is_client_game_dependency(
                        #[trigger] deps@[a].1@[b],
                    ),
            decreases deps.len() - i,
        {
            let entries = &deps[i].1;
            let mut j: usize = 0;
            while j < entries.len()
                invariant
                    i < deps.len(),
                    t.dependencies == Some(*deps),
                    *entries == deps@[i as int].1,
                    j <= entries.len(),
                    forall|b: int| 0 <= b < j ==> !is_client_game_dependency(#[trigger] entries@[b]),
                decreases entries.len() - j,
            {
                if is_client_game_dependency_entry(&entries[j]) {
                    assert(is_client_game_dependency(deps@[i as int].1@[j as int]));
                    assert(0 <= j < deps@[i as int].1@.len());
                    assert(t.dependencies matches Some(d) && d@ == deps@);
                    return true;
                }
                j += 1;
            }
            i += 1;
        }
    }
    false
}

/// A `[[mods]]` entry whose side is "client" (in any ASCII case) makes the
/// whole `mods.toml` declare its mod client-only.
pub proof fn law_client_side_entry_declares_client_only(t: ModsToml, i: int, side: String)
    requires
        t.mods matches Some(m) && 0 <= i < m@.len() && m@[i].side == Some(side),
        ascii_lower(side@) == "client"@,
    ensures
        declares_client_only(t),
{
    let m = t.mods->0;
    assert(is_client_side(m@[i].side));
}

/// A dependency entry on "minecraft", "forge" or "neoforge" (in any ASCII
/// case) whose side is "client" (in any ASCII case) makes the `mods.toml`
/// declare its mod client-only.
pub proof fn law_client_side_game_dependency_declares_client_only(
    t: ModsToml,
    i: int,
    j: int,
    id: String,
    side: String,
)
    requires
        t.dependencies matches Some(d) && 0 <= i < d@.len() && 0 <= j < d@[i].1@.len()
            && d@[i].1@[j].mod_id == Some(id) && d@[i].1@[j].side == Some(side),
        ascii_lower(id@) == "minecraft"@ || ascii_lower(id@) == "forge"@ || ascii_lower(id@) == "neoforge"@,
        ascii_lower(side@) == "client"@,
    ensures
        declares_client_only(t),
{
    let d = t.dependencies->0;
    assert(is_client_game_dependency(d@[i].1@[j]));
}

/// Whether the Forge / NeoForge jar `jar` must stay off a dedicated server,
/// given the `mods.toml` files of the jar that parsed: one of them declares
/// the mod client-only, or the jar registers a ModLauncher transformer or a
/// legacy coremod (which Forge runs on every class load, whatever the side).
pub fn is_client_only_forge_mod(jar: &[u8], mods_tomls: &[ModsToml]) -> (r: bool)
    ensures
        r == ((exists|k: int| 0 <= k < mods_tomls@.len() && declares_client_only(#[trigger] mods_tomls@[k]))
            || zip_has_entry(jar@, TRANSFORMER_SERVICE@) || zip_has_entry(jar@, LEGACY_COREMODS@)),
{
    let mut i: usize = 0;
    while i < mods_tomls.len()
        invariant
            i <= mods_tomls.len(),
            forall|k: int| 0 <= k < i ==> !declares_client_only(#[trigger] mods_tomls@[k]),
        decreases mods_tomls.len() - i,
    {
        if mods_toml_declares_client_only(&mods_tomls[i]) {
            return true;
        }
        i += 1;
    }
    has_transformer_or_coremod(jar)
}

/// `line` without one trailing carriage return.
pub open spec fn strip_cr(line: Seq<char>) -> Seq<char> {
    if line.len() > 0 && line.last() == '\r' {
        line.drop_last()
    } else {
        line
    }
}

/// The value of attribute `key` (written with its colon) in the main section
/// of a manifest given as lines: the first line that starts with `key`, before
/// the first empty line, with the rest of the line trimmed.
pub open spec fn main_section_value(lines: Seq<Seq<char>>, key: Seq<char>) -> Option<Seq<char>>
    decreases lines.len(),
{
    if lines.len() == 0 {
        None
    } else {
        let line = strip_cr(lines[0]);
        if line.len() == 0 {
            None
        } else if has_prefix(line, key) {
            Some(trim_white(line.skip(key.len() as int)))
        } else {
            main_section_value(lines.drop_first(), key)
        }
    }
}

/// The `Implementation-Version` attribute of a jar manifest.
pub open spec fn implementation_version(manifest: Seq<char>) -> Option<Seq<char>> {
    main_section_value(split_on(manifest, '\n'), "Implementation-Version:"@)
}

/// Reads the `Implementation-Version` attribute of the main section of a jar
/// manifest.
pub fn manifest_implementation_version(manifest: &str) -> (r: Option<String>)
    ensures
        opt_view(r) == implementation_version(manifest@),
{
    let lines = split_chars(&chars_of(manifest), '\n');
    let key = chars_of("Implementation-Version:");
    let mut i: usize = 0;
    assert(char_views(lines@).skip(0) =~= char_views(lines@));
    while i < lines.len()
        invariant
            i <= lines.len(),
            key@ == "Implementation-Version:"@,
            char_views(lines@) == split_on(manifest@, '\n'),
            implementation_version(manifest@) == main_section_value(char_views(lines@).skip(i as int), key@),
        decreases lines.len() - i,
    {
        let raw = &lines[i];
        let ghost rest = char_views(lines@).skip(i as int);
        assert(rest[0] == raw@);
        assert(rest.drop_first() =~= char_views(lines@).skip(i + 1));
        let n = raw.len();
        let line = if n > 0 && raw[n - 1] == '\r' {
            let mut l = slice_from(raw, 0);
            l.pop();
            assert(l@ =~= raw@.drop_last());
            l
        } else {
            let l = slice_from(raw, 0);
            assert(l@ =~= raw@);
            l
        };
        assert(line@ == strip_cr(raw@));
        if line.len() == 0 {
            return None;
        }
        if starts_with(&line, &key) {
            let value = trim(&slice_from(&line, key.len()));
            return Some(string_from(&value));
        }
        i += 1;
    }
    None
}

/// A `mods.toml` version as shown to users: a Gradle placeholder (starting
/// with `${`) is replaced by the manifest's `Implementation-Version` when that
/// is present and not blank.
pub open spec fn resolved_version(version: Option<Seq<char>>, manifest: Option<Seq<char>>) -> Option<Seq<char>> {
    match version {
        None => None,
        Some(v) => if !has_prefix(v, "${"@) {
            Some(v)
        } else {
            match manifest {
                Some(m) => match implementation_version(m) {
                    Some(iv) => if trim_white(iv).len() > 0 {
                        Some(iv)
                    } else {
                        Some(v)
                    },
                    None => Some(v),
                },
                None => Some(v),
            }
        },
    }
}

/// Resolves a `mods.toml` version against the manifest of `jar`, which is read
/// only for a placeholder.
pub fn resolve_toml_version(version: Option<String>, jar: &[u8]) -> (r: Option<String>)
    ensures
        opt_view(r) == resolved_version(opt_view(version), zip_entry_text(jar@, JAR_MANIFEST@)),
{
    let placeholder = match version {
        Some(v) => v,
        None => return None,
    };
    if !starts_with(&chars_of(placeholder.as_str()), &chars_of("${")) {
        return Some(placeholder);
    }
    let manifest = read_jar_manifest(jar);
    let resolved = match &manifest {
        Some(m) => manifest_implementation_version(m.as_str()),
        None => None,
    };
    match resolved {
        Some(iv) => {
            if trim(&chars_of(iv.as_str())).len() > 0 {
                Some(iv)
            } else {
                Some(placeholder)
            }
        },
        None => Some(placeholder),
    }
}

/// The first `[[mods]]` entry that carries a mod id.
pub open spec fn first_entry_with_id(mods: Seq<ModsTomlEntry>) -> Option<ModsTomlEntry>
    decreases mods.len(),
{
    if mods.len() == 0 {
        None
    } else if mods[0].mod_id is Some {
        Some(mods[0])
    } else {
        first_entry_with_id(mods.drop_first())
    }
}

/// The authors of a comma-separated `authors` string: each piece trimmed,
/// empty pieces dropped.
pub open spec fn toml_authors(authors: Option<String>) -> Seq<Seq<char>> {
    match authors {
        Some(a) => nonblank_trimmed(split_on(a@, ',')),
        None => Seq::empty(),
    }
}

/// A piece trimmed, or `None` when nothing is left of it.
pub open spec fn trimmed_piece(p: Seq<char>) -> Option<Seq<char>> {
    if trim_white(p).len() > 0 {
        Some(trim_white(p))
    } else {
        None
    }
}

/// The pieces trimmed, blank ones dropped.
pub open spec fn nonblank_trimmed(pieces: Seq<Seq<char>>) -> Seq<Seq<char>> {
    pieces.filter_map(|p: Seq<char>| trimmed_piece(p))
}

/// The dependency array declared under mod id `id`.
pub open spec fn dependency_entries(deps: Seq<(String, Vec<ForgeDependencyEntry>)>, id: Seq<char>) -> Option<
    Seq<ForgeDependencyEntry>,
>
    decreases deps.len(),
{
    if deps.len() == 0 {
        None
    } else if deps[0].0@ == id {
        Some(deps[0].1@)
    } else {
        dependency_entries(deps.drop_first(), id)
    }
}

/// The version range of the first dependency on `minecraft`.
pub open spec fn minecraft_range(entries: Seq<ForgeDependencyEntry>) -> Option<Seq<char>>
    decreases entries.len(),
{
    if entries.len() == 0 {
        None
    } else if opt_view(entries[0].mod_id) == Some("minecraft"@) {
        opt_view(entries[0].version_range)
    } else {
        minecraft_range(entries.drop_first())
    }
}

/// A dependency entry that becomes a required local dependency: mandatory
/// (the default), with an id that is not the runtime environment.
pub open spec fn required_dependency(e: ForgeDependencyEntry) -> Option<(Seq<char>, Option<Seq<char>>)> {
    match e.mod_id {
        Some(id) => if e.mandatory != Some(false) && !env_dependency(id@) {
            Some((id@, opt_view(e.version_range)))
        } else {
            None
        },
        None => None,
    }
}

/// The required local dependencies of a dependency array, in order.
pub open spec fn required_dependencies(entries: Seq<ForgeDependencyEntry>) -> Seq<(Seq<char>, Option<Seq<char>>)> {
    entries.filter_map(|e: ForgeDependencyEntry| required_dependency(e))
}

/// Whether `path` mentions `neoforge`.
pub open spec fn names_neoforge(path: Seq<char>) -> bool {
    first_occurrence_from(path, "neoforge"@, 0) is Some
}

/// The metadata that a parsed `mods.toml` found at `path` declares, given the
/// jar manifest: taken from the first `[[mods]]` entry with an id, `None` when
/// there is none.
pub open spec fn toml_metadata(t: ModsToml, path: Seq<char>, manifest: Option<Seq<char>>) -> Option<LocalModMetadataView> {
    match t.mods {
        None => None,
        Some(m) => match first_entry_with_id(m@) {
            None => None,
            Some(e) => {
                let id = e.mod_id->0@;
                let deps = match t.dependencies {
                    Some(d) => dependency_entries(d@, id),
                    None => None,
                };
                Some(
                    LocalModMetadataView {
                        mod_id: id,
                        name: opt_view(e.display_name),
                        version: resolved_version(opt_view(e.version), manifest),
                        authors: toml_authors(e.authors),
                        description: opt_view(e.description),
                        url: opt_view(e.display_url),
                        icon_path: opt_view(e.logo_file),
                        minecraft_version: match deps {
                            Some(d) => minecraft_range(d),
                            None => None,
                        },
                        loader_version: opt_view(t.loader_version),
                        loader: Some(
                            if names_neoforge(path) {
                                "neoforge"@
                            } else {
                                "forge"@
                            },
                        ),
                        dependencies: Some(
                            match deps {
                                Some(d) => required_dependencies(d),
                                None => Seq::empty(),
                            },
                        ),
                    },
                )
            },
        },
    }
}

fn split_authors(authors: &Option<String>) -> (r: Vec<String>)
    ensures
        views(r@) == toml_authors(*authors),
{
    let mut r: Vec<String> = Vec::new();
    let a = match authors {
        Some(a) => a,
        None => {
            assert(views(r@) =~= Seq::<Seq<char>>::empty());
            return r;
        },
    };
    let pieces = split_chars(&chars_of(a.as_str()), ',');
    let mut i: usize = 0;
    while i < pieces.len()
        invariant
            i <= pieces.len(),
            char_views(pieces@) == split_on(a@, ','),
            views(r@) == nonblank_trimmed(char_views(pieces@).take(i as int)),
        decreases pieces.len() - i,
    {
        let ghost before = r@;
        let t = trim(&pieces[i]);
        let ghost s1 = char_views(pieces@).take(i + 1);
        assert(s1.drop_last() =~= char_views(pieces@).take(i as int));
        assert(s1.last() == pieces@[i as int]@);
        assert(t@ == trim_white(s1.last()));
        if t.len() > 0 {
            r.push(string_from(&t));
            assert(views(r@) =~= views(before) + seq![t@]);
        } else {
            assert(views(r@) =~= views(before));
        }
        i += 1;
    }
    assert(char_views(pieces@).take(pieces.len() as int) =~= char_views(pieces@));
    r
}

fn find_dependency_entries<'a>(deps: &'a Vec<(String, Vec<ForgeDependencyEntry>)>, id: &String) -> (r: Option<&'a Vec<ForgeDependencyEntry>>)
    ensures
        match r {
            Some(v) => dependency_entries(deps@, id@) == Some(v@),
            None => dependency_entries(deps@, id@) is None,
        },
{
    let mut i: usize = 0;
    assert(deps@.skip(0) =~= deps@);
    while i < deps.len()
        invariant
            i <= deps.len(),
            dependency_entries(deps@, id@) == dependency_entries(deps@.skip(i as int), id@),
        decreases deps.len() - i,
    {
        assert(deps@.skip(i as int)[0] == deps@[i as int]);
        if deps[i].0 == *id {
            return Some(&deps[i].1);
        }
        assert(deps@.skip(i as int).drop_first() =~= deps@.skip(i + 1));
        i += 1;
    }
    None
}

fn find_minecraft_range(entries: &Vec<ForgeDependencyEntry>) -> (r: Option<String>)
    ensures
        opt_view(r) == minecraft_range(entries@),
{
    let minecraft = chars_of("minecraft");
    let mut i: usize = 0;
    assert(entries@.skip(0) =~= entries@);
    while i < entries.len()
        invariant
            i <= entries.len(),
            minecraft@ == "minecraft"@,
            minecraft_range(entries@) == minecraft_range(entries@.skip(i as int)),
        decreases entries.len() - i,
    {
        assert(entries@.skip(i as int)[0] == entries@[i as int]);
        let is_minecraft = match &entries[i].mod_id {
            Some(id) => chars_eq(&chars_of(id.as_str()), &minecraft),
            None => false,
        };
        if is_minecraft {
            return match &entries[i].version_range {
                Some(v) => Some(v.clone()),
                None => None,
            };
        }
        assert(entries@.skip(i as int).drop_first() =~= entries@.skip(i + 1));
        i += 1;
    }
    None
}

fn collect_required_dependencies(entries: &Vec<ForgeDependencyEntry>) -> (r: Vec<LocalModDependency>)
    ensures
        dependency_views(r@) == required_dependencies(entries@),
{
    let mut r: Vec<LocalModDependency> = Vec::new();
    let mut i: usize = 0;
    while i < entries.len()
        invariant
            i <= entries.len(),
            dependency_views(r@) == required_dependencies(entries@.take(i as int)),
        decreases entries.len() - i,
    {
        let ghost before = r@;
        let e = &entries[i];
        assert(entries@.take(i + 1).drop_last() =~= entries@.take(i as int));
        assert(entries@.take(i + 1).last() == entries@[i as int]);
        let mandatory = match e.mandatory {
            Some(m) => m,
            None => true,
        };
        if mandatory {
            if let Some(id) = &e.mod_id {
                if !is_env_dependency_id(id.as_str()) {
                    let d = LocalModDependency {
                        mod_id: id.clone(),
                        version_range: match &e.version_range {
                            Some(v) => Some(v.clone()),
                            None => None,
                        },
                    };
                    r.push(d);
                    assert(dependency_views(r@) =~= dependency_views(before) + seq![dependency_view(d)]);
                }
            }
        }
        i += 1;
    }
    assert(entries@.take(entries.len() as int) =~= entries@);
    r
}

/// The metadata that the parsed `mods.toml` found at `path` inside `jar`
/// declares, resolving a placeholder version from the jar manifest.
pub fn try_toml_path(jar: &[u8], path: &str, parsed: &ModsToml) -> (r: Option<LocalModMetadata>)
    ensures
        opt_metadata_view(r) == toml_metadata(*parsed, path@, zip_entry_text(jar@, JAR_MANIFEST@)),
{
    let mods = match &parsed.mods {
        Some(m) => m,
        None => return None,
    };
    let mut i: usize = 0;
    assert(mods@.skip(0) =~= mods@);
    while i < mods.len() && mods[i].mod_id.is_none()
        invariant
            i <= mods.len(),
            first_entry_with_id(mods@) == first_entry_with_id(mods@.skip(i as int)),
        decreases mods.len() - i,
    {
        assert(mods@.skip(i as int).drop_first() =~= mods@.skip(i + 1));
        i += 1;
    }
    if i == mods.len() {
        return None;
    }
    assert(mods@.skip(i as int)[0] == mods@[i as int]);
    let entry = &mods[i];
    let mod_id = match &entry.mod_id {
        Some(id) => id.clone(),
        None => return None,
    };
    let deps = match &parsed.dependencies {
        Some(d) => find_dependency_entries(d, &mod_id),
        None => None,
    };
    let minecraft_version = match deps {
        Some(d) => find_minecraft_range(d),
        None => None,
    };
    let dependencies = match deps {
        Some(d) => collect_required_dependencies(d),
        None => Vec::new(),
    };
    let is_neoforge = find_first(&chars_of(path), &chars_of("neoforge")).is_some();
    let loader = if is_neoforge {
        String::from_str("neoforge")
    } else {
        String::from_str("forge")
    };
    let version = resolve_toml_version(
        match &entry.version {
            Some(v) => Some(v.clone()),
            None => None,
        },
        jar,
    );
    let r = LocalModMetadata {
        mod_id,
        name: match &entry.display_name {
            Some(v) => Some(v.clone()),
            None => None,
        },
        version,
        authors: split_authors(&entry.authors),
        description: match &entry.description {
            Some(v) => Some(v.clone()),
            None => None,
        },
        url: match &entry.display_url {
            Some(v) => Some(v.clone()),
            None => None,
        },
        icon_path: match &entry.logo_file {
            Some(v) => Some(v.clone()),
            None => None,
        },
        minecraft_version,
        loader_version: match &parsed.loader_version {
            Some(v) => Some(v.clone()),
            None => None,
        },
        loader: Some(loader),
        dependencies: Some(dependencies),
    };
    proof {
        if deps is None {
            assert(dependency_views(Seq::<LocalModDependency>::empty()) =~= Seq::empty());
        }
    }
    Some(r)
}

} // verus!

verus! {

/// A `mods.toml` whose first `[[mods]]` entry has a mod id yields that
/// entry's id, display name and description; its version is kept as written
/// unless it is a `${...}` placeholder, and is absent when the entry has none.
pub proof fn law_toml_metadata_keeps_first_entry_fields(t: ModsToml, path: Seq<char>, manifest: Option<Seq<char>>)
    requires
        t.mods matches Some(m) && m@.len() > 0 && m@[0].mod_id is Some,
    ensures
        toml_metadata(t, path, manifest) matches Some(r) && {
            let e = t.mods->0@[0];
            &&& r.mod_id == e.mod_id->0@
            &&& r.name == opt_view(e.display_name)
            &&& r.description == opt_view(e.description)
            &&& (e.version is Some && !has_prefix(e.version->0@, "${"@) ==> r.version == Some(e.version->0@))
            &&& (e.version is None ==> r.version is None)
        },
{
}

} // verus!
