//! Mod identity read from metadata files inside mod jars: the unified
//! metadata record, the legacy Forge `mcmod.info` reading, and the Fabric
//! author and contact fields.

use vstd::prelude::*;
use crate::text::{chars_eq, chars_of, clone_opt_string, clone_strings, opt_view, views};
use crate::jar::{zip_entry_text, JAR_MANIFEST, MODS_TOML, NEOFORGE_MODS_TOML};
use crate::mods_toml::{toml_metadata, try_toml_path, ModsToml};

verus! {

/// Unified local mod metadata extracted from inside a jar. Only `mod_id` is
/// required; all other fields are best-effort.
pub struct LocalModMetadata {
    pub mod_id: String,
    pub name: Option<String>,
    pub version: Option<String>,
    pub authors: Vec<String>,
    pub description: Option<String>,
    pub url: Option<String>,
    pub icon_path: Option<String>,
    pub minecraft_version: Option<String>,
    pub loader_version: Option<String>,
    pub loader: Option<String>,
    /// Required dependencies declared in the embedded metadata. `None` marks
    /// records written before dependency extraction existed.
    pub dependencies: Option<Vec<LocalModDependency>>,
}

/// One required dependency declared in embedded mod metadata.
pub struct LocalModDependency {
    pub mod_id: String,
    pub version_range: Option<String>,
}

/// The value of a `LocalModDependency`: its mod id and version range.
pub open spec fn dependency_view(d: LocalModDependency) -> (Seq<char>, Option<Seq<char>>) {
    (d.mod_id@, opt_view(d.version_range))
}

pub open spec fn dependency_views(v: Seq<LocalModDependency>) -> Seq<(Seq<char>, Option<Seq<char>>)> {
    v.map_values(|d: LocalModDependency| dependency_view(d))
}

/// The value of a `LocalModMetadata`, field by field.
pub struct LocalModMetadataView {
    pub mod_id: Seq<char>,
    pub name: Option<Seq<char>>,
    pub version: Option<Seq<char>>,
    pub authors: Seq<Seq<char>>,
    pub description: Option<Seq<char>>,
    pub url: Option<Seq<char>>,
    pub icon_path: Option<Seq<char>>,
    pub minecraft_version: Option<Seq<char>>,
    pub loader_version: Option<Seq<char>>,
    pub loader: Option<Seq<char>>,
    pub dependencies: Option<Seq<(Seq<char>, Option<Seq<char>>)>>,
}

impl View for LocalModMetadata {
    type V = LocalModMetadataView;

    open spec fn view(&self) -> LocalModMetadataView {
        LocalModMetadataView {
            mod_id: self.mod_id@,
            name: opt_view(self.name),
            version: opt_view(self.version),
            authors: views(self.authors@),
            description: opt_view(self.description),
            url: opt_view(self.url),
            icon_path: opt_view(self.icon_path),
            minecraft_version: opt_view(self.minecraft_version),
            loader_version: opt_view(self.loader_version),
            loader: opt_view(self.loader),
            dependencies: match self.dependencies {
                Some(d) => Some(dependency_views(d@)),
                None => None,
            },
        }
    }
}

pub open spec fn opt_metadata_view(m: Option<LocalModMetadata>) -> Option<LocalModMetadataView> {
    match m {
        Some(m) => Some(m@),
        None => None,
    }
}

/// Dependency ids that name the runtime environment rather than content.
pub open spec fn env_dependency(id: Seq<char>) -> bool {
    ||| id == "minecraft"@
    ||| id == "java"@
    ||| id == "fabricloader"@
    ||| id == "quilt_loader"@
    ||| id == "forge"@
    ||| id == "neoforge"@
    ||| id == "fml"@
}

pub fn is_env_dependency_id(id: &str) -> (r: bool)
    ensures
        r == env_dependency(id@),
{
    let c = chars_of(id);
    chars_eq(&c, &chars_of("minecraft")) || chars_eq(&c, &chars_of("java")) || chars_eq(
        &c,
        &chars_of("fabricloader"),
    ) || chars_eq(&c, &chars_of("quilt_loader")) || chars_eq(&c, &chars_of("forge")) || chars_eq(
        &c,
        &chars_of("neoforge"),
    ) || chars_eq(&c, &chars_of("fml"))
}

/// A Fabric / Quilt author entry: a plain name, or an object whose `name` may be absent.
pub enum FabricAuthorOrArray {
    Plain(String),
    Object { name: Option<String> },
}

pub open spec fn author_name(a: FabricAuthorOrArray) -> Option<Seq<char>> {
    match a {
        FabricAuthorOrArray::Plain(s) => Some(s@),
        FabricAuthorOrArray::Object { name } => opt_view(name),
    }
}

/// The names of the given authors, in order, skipping entries without one.
pub open spec fn author_names(authors: Seq<FabricAuthorOrArray>) -> Seq<Seq<char>>
    decreases authors.len(),
{
    if authors.len() == 0 {
        Seq::empty()
    } else {
        let rest = author_names(authors.drop_last());
        match author_name(authors.last()) {
            Some(n) => rest.push(n),
            None => rest,
        }
    }
}

fn push_author_names(out: &mut Vec<String>, authors: &[FabricAuthorOrArray])
    ensures
        views(final(out)@) == views(old(out)@) + author_names(authors@),
{
    let mut i: usize = 0;
    while i < authors.len()
        invariant
            i <= authors.len(),
            views(out@) == views(old(out)@) + author_names(authors@.take(i as int)),
        decreases authors.len() - i,
    {
        let ghost before = out@;
        assert(authors@.take(i + 1).drop_last() =~= authors@.take(i as int));
        match &authors[i] {
            FabricAuthorOrArray::Plain(s) => {
                out.push(s.clone());
                assert(views(out@) =~= views(before).push(s@));
            },
            FabricAuthorOrArray::Object { name } => match name {
                Some(n) => {
                    out.push(n.clone());
                    assert(views(out@) =~= views(before).push(n@));
                },
                None => {},
            },
        }
        i += 1;
    }
    assert(authors@.take(authors.len() as int) =~= authors@);
}

/// The author names of the primary authors, then of the contributors.
pub fn merge_authors(primary: &[FabricAuthorOrArray], contributors: &[FabricAuthorOrArray]) -> (r: Vec<String>)
    ensures
        views(r@) == author_names(primary@) + author_names(contributors@),
{
    let mut r: Vec<String> = Vec::new();
    push_author_names(&mut r, primary);
    push_author_names(&mut r, contributors);
    assert(views(Seq::<String>::empty()) =~= Seq::<Seq<char>>::empty());
    r
}

/// The entries of a Fabric `contact` object, in order: each key with its
/// value when that value is a string.
pub open spec fn contact_lookup(entries: Seq<(Seq<char>, Option<Seq<char>>)>, key: Seq<char>) -> Option<
    Option<Seq<char>>,
>
    decreases entries.len(),
{
    if entries.len() == 0 {
        None
    } else if entries[0].0 == key {
        Some(entries[0].1)
    } else {
        contact_lookup(entries.drop_first(), key)
    }
}

/// The first string value among the entries.
pub open spec fn first_string_value(entries: Seq<(Seq<char>, Option<Seq<char>>)>) -> Option<Seq<char>>
    decreases entries.len(),
{
    if entries.len() == 0 {
        None
    } else if entries[0].1 is Some {
        entries[0].1
    } else {
        first_string_value(entries.drop_first())
    }
}

/// The project URL of a `contact` object: `homepage` when it is a string,
/// else `sources` when it is a string, else the first string value.
pub open spec fn contact_url(contact: Option<Seq<(Seq<char>, Option<Seq<char>>)>>) -> Option<Seq<char>> {
    match contact {
        None => None,
        Some(entries) => match contact_lookup(entries, "homepage"@) {
            Some(Some(h)) => Some(h),
            _ => match contact_lookup(entries, "sources"@) {
                Some(Some(s)) => Some(s),
                _ => first_string_value(entries),
            },
        },
    }
}

pub open spec fn contact_views(v: Seq<(String, Option<String>)>) -> Seq<(Seq<char>, Option<Seq<char>>)> {
    v.map_values(|p: (String, Option<String>)| (p.0@, opt_view(p.1)))
}

fn lookup_contact(entries: &[(String, Option<String>)], key: &str) -> (r: Option<Option<String>>)
    ensures
        match r {
            Some(v) => contact_lookup(contact_views(entries@), key@) == Some(opt_view(v)),
            None => contact_lookup(contact_views(entries@), key@) is None,
        },
{
    let owned = key.to_owned();
    let ghost k = key@;
    let mut i: usize = 0;
    assert(contact_views(entries@).skip(0) =~= contact_views(entries@));
    while i < entries.len()
        invariant
            i <= entries.len(),
            owned@ == k,
            k == key@,
            contact_lookup(contact_views(entries@), k) == contact_lookup(contact_views(entries@).skip(i as int), k),
        decreases entries.len() - i,
    {
        assert(contact_views(entries@).skip(i as int)[0] == (entries@[i as int].0@, opt_view(entries@[i as int].1)));
        if entries[i].0 == owned {
            return Some(clone_opt_string(&entries[i].1));
        }
        assert(contact_views(entries@).skip(i as int).drop_first() =~= contact_views(entries@).skip(i + 1));
        i += 1;
    }
    None
}

/// Extracts a URL from Fabric's `contact` object (`None` when there is no
/// contact object).
pub fn extract_contact_url(contact: Option<&Vec<(String, Option<String>)>>) -> (r: Option<String>)
    ensures
        opt_view(r) == contact_url(match contact {
            Some(c) => Some(contact_views(c@)),
            None => None,
        }),
{
    let entries = match contact {
        Some(c) => c,
        None => return None,
    };
    match lookup_contact(entries, "homepage") {
        Some(Some(h)) => return Some(h),
        _ => {},
    }
    match lookup_contact(entries, "sources") {
        Some(Some(s)) => return Some(s),
        _ => {},
    }
    let mut i: usize = 0;
    assert(contact_views(entries@).skip(0) =~= contact_views(entries@));
    while i < entries.len()
        invariant
            i <= entries.len(),
            contact == Some(entries),
            contact_url(Some(contact_views(entries@))) == first_string_value(contact_views(entries@)),
            first_string_value(contact_views(entries@)) == first_string_value(contact_views(entries@).skip(i as int)),
        decreases entries.len() - i,
    {
        assert(contact_views(entries@).skip(i as int)[0] == (entries@[i as int].0@, opt_view(entries@[i as int].1)));
        match &entries[i].1 {
            Some(v) => return Some(v.clone()),
            None => {},
        }
        assert(contact_views(entries@).skip(i as int).drop_first() =~= contact_views(entries@).skip(i + 1));
        i += 1;
    }
    None
}

/// One entry of a legacy Forge `mcmod.info` array.
pub struct McmodInfoEntry {
    pub modid: Option<String>,
    pub name: Option<String>,
    pub version: Option<String>,
    pub mcversion: Option<String>,
    pub description: Option<String>,
    pub url: Option<String>,
    pub logo_file: Option<String>,
    pub authors: Option<Vec<String>>,
}

/// The metadata an `mcmod.info` array declares: its first entry, which must
/// carry a mod id; loader `forge`, no declared dependencies.
pub open spec fn mcmod_metadata(entries: Seq<McmodInfoEntry>) -> Option<LocalModMetadataView> {
    if entries.len() == 0 {
        None
    } else {
        let e = entries[0];
        match e.modid {
            None => None,
            Some(id) => Some(
                LocalModMetadataView {
                    mod_id: id@,
                    name: opt_view(e.name),
                    version: opt_view(e.version),
                    authors: match e.authors {
                        Some(a) => views(a@),
                        None => Seq::empty(),
                    },
                    description: opt_view(e.description),
                    url: opt_view(e.url),
                    icon_path: opt_view(e.logo_file),
                    minecraft_version: opt_view(e.mcversion),
                    loader_version: None,
                    loader: Some("forge"@),
                    dependencies: Some(Seq::empty()),
                },
            ),
        }
    }
}

/// The metadata of a parsed legacy Forge `mcmod.info` array.
pub fn metadata_from_mcmod_info(entries: &[McmodInfoEntry]) -> (r: Option<LocalModMetadata>)
    ensures
        opt_metadata_view(r) == mcmod_metadata(entries@),
{
    if entries.len() == 0 {
        return None;
    }
    let e = &entries[0];
    let mod_id = match &e.modid {
        Some(id) => id.clone(),
        None => return None,
    };
    let authors = match &e.authors {
        Some(a) => clone_strings(a),
        None => Vec::new(),
    };
    let dependencies: Vec<LocalModDependency> = Vec::new();
    let r = LocalModMetadata {
        mod_id,
        name: clone_opt_string(&e.name),
        version: clone_opt_string(&e.version),
        authors,
        description: clone_opt_string(&e.description),
        url: clone_opt_string(&e.url),
        icon_path: clone_opt_string(&e.logo_file),
        minecraft_version: clone_opt_string(&e.mcversion),
        loader_version: None,
        loader: Some(String::from_str("forge")),
        dependencies: Some(dependencies),
    };
    assert(dependency_views(dependencies@) =~= Seq::empty());
    assert(e.authors is None ==> views(r.authors@) =~= Seq::empty());
    Some(r)
}

/// A Fabric `icon` value: one path, a map from pixel size to path (each
/// entry with its path when that is a string), or something else.
pub enum FabricIcon {
    Path(String),
    Sizes(Vec<(String, Option<String>)>),
    Other,
}

/// `fabric.mod.json` as the metadata reader needs it. Quilt's
/// `quilt.mod.json` has the same shape under `quilt_loader`. JSON objects are
/// held as their entries in document order, each value as `Some` text when
/// it is a string.
pub struct FabricModJson {
    pub id: Option<String>,
    pub name: Option<String>,
    pub version: Option<String>,
    pub description: Option<String>,
    pub authors: Vec<FabricAuthorOrArray>,
    pub contributors: Vec<FabricAuthorOrArray>,
    /// The `contact` object's entries, when it is an object.
    pub contact: Option<Vec<(String, Option<String>)>>,
    pub icon: Option<FabricIcon>,
    /// The `depends` object's entries, when it is an object.
    pub depends: Option<Vec<(String, Option<String>)>>,
}

/// The value of a decimal digit.
pub open spec fn digit_value(c: char) -> int {
    c as int - '0' as int
}

pub open spec fn all_digits(s: Seq<char>) -> bool {
    forall|k: int| 0 <= k < s.len() ==> '0' <= #[trigger] s[k] <= '9'
}

/// The number written by a string of decimal digits.
pub open spec fn digits_value(s: Seq<char>) -> int
    decreases s.len(),
{
    if s.len() == 0 {
        0
    } else {
        digits_value(s.drop_last()) * 10 + digit_value(s.last())
    }
}

/// `str::parse::<u64>`: an optional `+`, then one or more ASCII digits whose
/// value fits in a `u64`.
pub open spec fn parsed_u64(s: Seq<char>) -> Option<u64> {
    let d = if s.len() > 0 && s[0] == '+' {
        s.drop_first()
    } else {
        s
    };
    if d.len() > 0 && all_digits(d) && digits_value(d) <= u64::MAX {
        Some(digits_value(d) as u64)
    } else {
        None
    }
}

proof fn lemma_digits_value_prefix(s: Seq<char>, k: int)
    requires
        all_digits(s),
        0 <= k <= s.len(),
    ensures
        0 <= digits_value(s.take(k)) <= digits_value(s),
    decreases s.len(),
{
    if k == s.len() {
        assert(s.take(k) =~= s);
        if s.len() > 0 {
            lemma_digits_value_prefix(s.drop_last(), k - 1);
            assert(s.drop_last().take(k - 1) =~= s.drop_last());
        }
    } else {
        assert(s.drop_last().take(k) =~= s.take(k));
        lemma_digits_value_prefix(s.drop_last(), k);
    }
}

/// Parses a decimal `u64` as `str::parse` does.
pub fn parse_u64(s: &str) -> (r: Option<u64>)
    ensures
        r == parsed_u64(s@),
{
    let cs = chars_of(s);
    let start: usize = if cs.len() > 0 && cs[0] == '+' {
        1
    } else {
        0
    };
    let ghost d = if s@.len() > 0 && s@[0] == '+' {
        s@.drop_first()
    } else {
        s@
    };
    assert(d =~= cs@.skip(start as int));
    if start >= cs.len() {
        return None;
    }
    let mut value: u64 = 0;
    let mut i: usize = start;
    while i < cs.len()
        invariant
            start <= i <= cs.len(),
            start < cs.len(),
            cs@ == s@,
            d == cs@.skip(start as int),
            d == (if s@.len() > 0 && s@[0] == '+' {
                s@.drop_first()
            } else {
                s@
            }),
            all_digits(d.take(i - start)),
            value == digits_value(d.take(i - start)),
        decreases cs.len() - i,
    {
        let c = cs[i];
        let ghost t = d.take(i - start + 1);
        assert(t.drop_last() =~= d.take(i - start));
        assert(t.last() == c);
        if !('0' <= c && c <= '9') {
            assert(!all_digits(d)) by {
                assert(d[i - start] == c);
            }
            return None;
        }
        let digit = (c as u32 - '0' as u32) as u64;
        assert(digit == digit_value(c));
        assert(all_digits(t)) by {
            assert forall|k: int| 0 <= k < t.len() implies '0' <= #[trigger] t[k] <= '9' by {
                if k < t.len() - 1 {
                    assert(t[k] == d.take(i - start)[k]);
                }
            }
        }
        match value.checked_mul(10) {
            Some(tens) => match tens.checked_add(digit) {
                Some(next) => value = next,
                None => {
                    proof {
                        if all_digits(d) {
                            lemma_digits_value_prefix(d, i - start + 1);
                        }
                    }
                    return None;
                },
            },
            None => {
                proof {
                    if all_digits(d) {
                        lemma_digits_value_prefix(d, i - start + 1);
                    }
                }
                return None;
            },
        }
        i += 1;
    }
    assert(d.take(cs.len() - start) =~= d);
    Some(value)
}

/// The path of the icon for the largest pixel size among the map's entries
/// whose size parses as a number and whose path is a string (the last of
/// equally large ones).
pub open spec fn largest_icon(entries: Seq<(Seq<char>, Option<Seq<char>>)>) -> Option<(u64, Seq<char>)>
    decreases entries.len(),
{
    if entries.len() == 0 {
        None
    } else {
        let best = largest_icon(entries.drop_last());
        let e = entries.last();
        match (parsed_u64(e.0), e.1) {
            (Some(size), Some(path)) => match best {
                Some((b, _)) => if size >= b {
                    Some((size, path))
                } else {
                    best
                },
                None => Some((size, path)),
            },
            _ => best,
        }
    }
}

pub open spec fn icon_path_of(icon: Option<FabricIcon>) -> Option<Seq<char>> {
    match icon {
        Some(FabricIcon::Path(p)) => Some(p@),
        Some(FabricIcon::Sizes(entries)) => match largest_icon(contact_views(entries@)) {
            Some((_, path)) => Some(path),
            None => None,
        },
        _ => None,
    }
}

/// The icon path a Fabric icon value names.
pub fn fabric_icon_path(icon: &Option<FabricIcon>) -> (r: Option<String>)
    ensures
        opt_view(r) == icon_path_of(*icon),
{
    match icon {
        Some(FabricIcon::Path(p)) => Some(p.clone()),
        Some(FabricIcon::Sizes(entries)) => {
            let mut best: Option<(u64, String)> = None;
            let mut i: usize = 0;
            while i < entries.len()
                invariant
                    i <= entries.len(),
                    match best {
                        Some((b, p)) => largest_icon(contact_views(entries@.take(i as int))) == Some((b, p@)),
                        None => largest_icon(contact_views(entries@.take(i as int))) is None,
                    },
                decreases entries.len() - i,
            {
                let ghost t = contact_views(entries@.take(i + 1));
                assert(t.drop_last() =~= contact_views(entries@.take(i as int)));
                assert(t.last() == (entries@[i as int].0@, opt_view(entries@[i as int].1)));
                let size = parse_u64(entries[i].0.as_str());
                match (size, &entries[i].1) {
                    (Some(size), Some(path)) => {
                        let take = match &best {
                            Some((b, _)) => size >= *b,
                            None => true,
                        };
                        if take {
                            best = Some((size, path.clone()));
                        }
                    },
                    _ => {},
                }
                i += 1;
            }
            assert(entries@.take(entries.len() as int) =~= entries@);
            match best {
                Some((_, p)) => Some(p),
                None => None,
            }
        },
        _ => None,
    }
}

/// The requirement a `depends` object gives for `key`, when it is a string.
pub open spec fn dependency_requirement(depends: Option<Seq<(Seq<char>, Option<Seq<char>>)>>, key: Seq<char>) -> Option<
    Seq<char>,
> {
    match depends {
        Some(entries) => match contact_lookup(entries, key) {
            Some(Some(v)) => Some(v),
            _ => None,
        },
        None => None,
    }
}

fn requirement_for(depends: &Option<Vec<(String, Option<String>)>>, key: &str) -> (r: Option<String>)
    ensures
        opt_view(r) == dependency_requirement(
            match depends {
                Some(d) => Some(contact_views(d@)),
                None => None,
            },
            key@,
        ),
{
    match depends {
        Some(d) => match lookup_contact(d, key) {
            Some(Some(v)) => Some(v),
            _ => None,
        },
        None => None,
    }
}

/// A `depends` entry as a local dependency, unless it names the runtime
/// environment.
pub open spec fn fabric_dependency(e: (Seq<char>, Option<Seq<char>>)) -> Option<(Seq<char>, Option<Seq<char>>)> {
    if env_dependency(e.0) {
        None
    } else {
        Some(e)
    }
}

/// The local dependencies a `depends` object declares, in order.
pub open spec fn fabric_dependencies(depends: Option<Seq<(Seq<char>, Option<Seq<char>>)>>) -> Seq<
    (Seq<char>, Option<Seq<char>>),
> {
    match depends {
        Some(entries) => entries.filter_map(|e: (Seq<char>, Option<Seq<char>>)| fabric_dependency(e)),
        None => Seq::empty(),
    }
}

fn dependency_list(depends: &Option<Vec<(String, Option<String>)>>) -> (r: Vec<LocalModDependency>)
    ensures
        dependency_views(r@) == fabric_dependencies(
            match depends {
                Some(d) => Some(contact_views(d@)),
                None => None,
            },
        ),
{
    let mut r: Vec<LocalModDependency> = Vec::new();
    let entries = match depends {
        Some(d) => d,
        None => {
            assert(dependency_views(r@) =~= Seq::empty());
            return r;
        },
    };
    let mut i: usize = 0;
    while i < entries.len()
        invariant
            i <= entries.len(),
            dependency_views(r@) == contact_views(entries@.take(i as int)).filter_map(
                |e: (Seq<char>, Option<Seq<char>>)| fabric_dependency(e),
            ),
        decreases entries.len() - i,
    {
        let ghost before = r@;
        let ghost t = contact_views(entries@.take(i + 1));
        assert(t.drop_last() =~= contact_views(entries@.take(i as int)));
        assert(t.last() == (entries@[i as int].0@, opt_view(entries@[i as int].1)));
        if !is_env_dependency_id(entries[i].0.as_str()) {
            let d = LocalModDependency { mod_id: entries[i].0.clone(), version_range: clone_opt_string(&entries[i].1) };
            r.push(d);
            assert(dependency_views(r@) =~= dependency_views(before) + seq![dependency_view(d)]);
        }
        i += 1;
    }
    assert(entries@.take(entries.len() as int) =~= entries@);
    r
}

pub open spec fn opt_contact_views(o: Option<Vec<(String, Option<String>)>>) -> Option<Seq<(Seq<char>, Option<Seq<char>>)>> {
    match o {
        Some(v) => Some(contact_views(v@)),
        None => None,
    }
}

/// The metadata a Fabric-shaped document declares for `loader`, whose own
/// version is the requirement on `loader_key`; `None` without a mod id.
pub open spec fn fabric_metadata(f: FabricModJson, loader: Seq<char>, loader_key: Seq<char>) -> Option<LocalModMetadataView> {
    match f.id {
        None => None,
        Some(id) => Some(
            LocalModMetadataView {
                mod_id: id@,
                name: opt_view(f.name),
                version: opt_view(f.version),
                authors: author_names(f.authors@) + author_names(f.contributors@),
                description: opt_view(f.description),
                url: contact_url(opt_contact_views(f.contact)),
                icon_path: icon_path_of(f.icon),
                minecraft_version: dependency_requirement(opt_contact_views(f.depends), "minecraft"@),
                loader_version: dependency_requirement(opt_contact_views(f.depends), loader_key),
                loader: Some(loader),
                dependencies: Some(fabric_dependencies(opt_contact_views(f.depends))),
            },
        ),
    }
}

fn fabric_like_metadata(f: &FabricModJson, loader: &str, loader_key: &str) -> (r: Option<LocalModMetadata>)
    ensures
        opt_metadata_view(r) == fabric_metadata(*f, loader@, loader_key@),
{
    let authors = merge_authors(f.authors.as_slice(), f.contributors.as_slice());
    let mod_id = match &f.id {
        Some(id) => id.clone(),
        None => return None,
    };
    let url = match &f.contact {
        Some(c) => extract_contact_url(Some(c)),
        None => extract_contact_url(None),
    };
    Some(
        LocalModMetadata {
            mod_id,
            name: clone_opt_string(&f.name),
            version: clone_opt_string(&f.version),
            authors,
            description: clone_opt_string(&f.description),
            url,
            icon_path: fabric_icon_path(&f.icon),
            minecraft_version: requirement_for(&f.depends, "minecraft"),
            loader_version: requirement_for(&f.depends, loader_key),
            loader: Some(String::from_str(loader)),
            dependencies: Some(dependency_list(&f.depends)),
        },
    )
}

/// The metadata of a parsed `fabric.mod.json`.
pub fn try_fabric(parsed: &FabricModJson) -> (r: Option<LocalModMetadata>)
    ensures
        opt_metadata_view(r) == fabric_metadata(*parsed, "fabric"@, "fabricloader"@),
{
    fabric_like_metadata(parsed, "fabric", "fabricloader")
}

/// The metadata of the `quilt_loader` object of a parsed `quilt.mod.json`.
pub fn try_quilt(parsed: &FabricModJson) -> (r: Option<LocalModMetadata>)
    ensures
        opt_metadata_view(r) == fabric_metadata(*parsed, "quilt"@, "quilt_loader"@),
{
    fabric_like_metadata(parsed, "quilt", "quilt_loader")
}

/// The metadata files of a jar as parsed; each is `None` when the jar lacks
/// it or it does not parse.
pub struct ParsedMetadataFiles {
    pub fabric_mod_json: Option<FabricModJson>,
    /// The `quilt_loader` object of `quilt.mod.json`.
    pub quilt_mod_json: Option<FabricModJson>,
    pub neoforge_mods_toml: Option<ModsToml>,
    pub mods_toml: Option<ModsToml>,
    pub mcmod_info: Option<Vec<McmodInfoEntry>>,
}

/// The metadata a jar declares, trying Fabric, Quilt, NeoForge, Forge and
/// legacy Forge metadata in that order: the first that yields a record.
pub open spec fn extracted_metadata(p: ParsedMetadataFiles, manifest: Option<Seq<char>>) -> Option<LocalModMetadataView> {
    let fabric = match p.fabric_mod_json {
        Some(f) => fabric_metadata(f, "fabric"@, "fabricloader"@),
        None => None,
    };
    let quilt = match p.quilt_mod_json {
        Some(f) => fabric_metadata(f, "quilt"@, "quilt_loader"@),
        None => None,
    };
    let neoforge = match p.neoforge_mods_toml {
        Some(t) => toml_metadata(t, NEOFORGE_MODS_TOML@, manifest),
        None => None,
    };
    let forge = match p.mods_toml {
        Some(t) => toml_metadata(t, MODS_TOML@, manifest),
        None => None,
    };
    if fabric is Some {
        fabric
    } else if quilt is Some {
        quilt
    } else if neoforge is Some {
        neoforge
    } else if forge is Some {
        forge
    } else {
        match p.mcmod_info {
            Some(entries) => mcmod_metadata(entries@),
            None => None,
        }
    }
}

/// The metadata the jar whose bytes are `jar` declares, given its metadata
/// files as parsed; a placeholder `mods.toml` version is resolved from the
/// jar manifest.
pub fn extract_mod_metadata(jar: &[u8], parsed: &ParsedMetadataFiles) -> (r: Option<LocalModMetadata>)
    ensures
        opt_metadata_view(r) == extracted_metadata(*parsed, zip_entry_text(jar@, JAR_MANIFEST@)),
{
    if let Some(f) = &parsed.fabric_mod_json {
        if let Some(m) = try_fabric(f) {
            return Some(m);
        }
    }
    if let Some(f) = &parsed.quilt_mod_json {
        if let Some(m) = try_quilt(f) {
            return Some(m);
        }
    }
    if let Some(t) = &parsed.neoforge_mods_toml {
        if let Some(m) = try_toml_path(jar, NEOFORGE_MODS_TOML, t) {
            return Some(m);
        }
    }
    if let Some(t) = &parsed.mods_toml {
        if let Some(m) = try_toml_path(jar, MODS_TOML, t) {
            return Some(m);
        }
    }
    match &parsed.mcmod_info {
        Some(entries) => metadata_from_mcmod_info(entries.as_slice()),
        None => None,
    }
}

} // verus!

verus! {

/// A Fabric or Quilt document yields metadata exactly when it declares a mod
/// id; the metadata then carries that id, the document's own name, version
/// and description, and the loader it was read for.
pub proof fn law_fabric_metadata_keeps_declared_fields(f: FabricModJson, loader: Seq<char>, loader_key: Seq<char>)
    ensures
        fabric_metadata(f, loader, loader_key) is Some <==> f.id is Some,
        fabric_metadata(f, loader, loader_key) matches Some(m) ==> {
            &&& m.mod_id == f.id->0@
            &&& m.name == opt_view(f.name)
            &&& m.version == opt_view(f.version)
            &&& m.description == opt_view(f.description)
            &&& m.loader == Some(loader)
        },
{
}

/// A jar whose `fabric.mod.json` declares a mod id is read as a Fabric mod:
/// its metadata carries the document's id, name, version and description,
/// with loader "fabric", whatever other metadata files it holds.
pub proof fn law_fabric_documents_come_first(p: ParsedMetadataFiles, manifest: Option<Seq<char>>, f: FabricModJson)
    requires
        p.fabric_mod_json == Some(f),
        f.id is Some,
    ensures
        extracted_metadata(p, manifest) matches Some(m) && m.mod_id == f.id->0@ && m.name == opt_view(f.name)
            && m.version == opt_view(f.version) && m.description == opt_view(f.description) && m.loader == Some(
            "fabric"@,
        ),
{
}

/// A jar without a Fabric mod id whose `quilt.mod.json` declares one is read
/// as a Quilt mod, with the document's id, name, version and description.
pub proof fn law_quilt_documents_follow_fabric(p: ParsedMetadataFiles, manifest: Option<Seq<char>>, f: FabricModJson)
    requires
        p.fabric_mod_json matches Some(g) ==> g.id is None,
        p.quilt_mod_json == Some(f),
        f.id is Some,
    ensures
        extracted_metadata(p, manifest) matches Some(m) && m.mod_id == f.id->0@ && m.name == opt_view(f.name)
            && m.version == opt_view(f.version) && m.description == opt_view(f.description) && m.loader == Some(
            "quilt"@,
        ),
{
}

/// An `mcmod.info` array yields metadata exactly when its first entry has a
/// mod id; the metadata then carries that entry's id, name, version,
/// description and Minecraft version, with loader "forge".
pub proof fn law_mcmod_metadata_keeps_first_entry_fields(entries: Seq<McmodInfoEntry>)
    ensures
        mcmod_metadata(entries) is Some <==> entries.len() > 0 && entries[0].modid is Some,
        mcmod_metadata(entries) matches Some(m) ==> {
            &&& m.mod_id == entries[0].modid->0@
            &&& m.name == opt_view(entries[0].name)
            &&& m.version == opt_view(entries[0].version)
            &&& m.description == opt_view(entries[0].description)
            &&& m.minecraft_version == opt_view(entries[0].mcversion)
            &&& m.loader == Some("forge"@)
        },
{
}

} // verus!
