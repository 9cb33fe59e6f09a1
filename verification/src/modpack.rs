//! Server modpack installation planning: which files of a pack's
//! `modrinth.index.json` land on a dedicated server, which are kept back, and
//! the bookkeeping derived from that split.

use vstd::prelude::*;
use crate::text::{
    lemma_string_set_concat,
    clone_opt_string, clone_strings, contains_string, string_set,
    after_last, ascii_lower, before_first_of, chars_eq, prefix_before_first_of, suffix_after_last,
    to_ascii_lower,
    chars_of, ends_with, find_first, first_occurrence_from, forward_slashes, has_prefix, has_suffix,
    opt_view, prefix_before_first, before_first, slice_from, slice_to, starts_with, string_from,
    to_forward_slashes, views,
};

verus! {

/// The pack index's environment marker for a file.
#[derive(Clone)]
pub struct MrpackEnv {
    pub server: Option<String>,
}

/// One file entry of `modrinth.index.json`. `hashes` lists the index's
/// `hashes` object as (algorithm, digest) pairs; being a JSON object's
/// entries, no algorithm occurs twice.
#[derive(Clone)]
pub struct MrpackFile {
    pub path: String,
    pub hashes: Vec<(String, String)>,
    pub env: Option<MrpackEnv>,
    pub downloads: Vec<String>,
    pub file_size: Option<u64>,
}

pub struct MrpackFileView {
    pub path: Seq<char>,
    pub hashes: Seq<(Seq<char>, Seq<char>)>,
    pub env: Option<Option<Seq<char>>>,
    pub downloads: Seq<Seq<char>>,
    pub file_size: Option<u64>,
}

impl View for MrpackFile {
    type V = MrpackFileView;

    open spec fn view(&self) -> MrpackFileView {
        MrpackFileView {
            path: self.path@,
            hashes: pair_views(self.hashes@),
            env: match self.env {
                Some(env) => Some(opt_view(env.server)),
                None => None,
            },
            downloads: views(self.downloads@),
            file_size: self.file_size,
        }
    }
}

pub open spec fn pair_views(v: Seq<(String, String)>) -> Seq<(Seq<char>, Seq<char>)> {
    v.map_values(|p: (String, String)| (p.0@, p.1@))
}

/// Index path prefixes that only a Minecraft client ever reads.
pub open spec fn client_only_index_path(path: Seq<char>) -> bool {
    ||| has_prefix(path, "shaderpacks/"@)
    ||| has_prefix(path, "resourcepacks/"@)
    ||| has_prefix(path, "texturepacks/"@)
}

/// A file belongs on a server unless its index entry marks the server side
/// `unsupported`, or its (slash-normalized) path lies in a client-only folder.
pub open spec fn server_installable(f: MrpackFileView) -> bool {
    &&& f.env != Some(Some("unsupported"@))
    &&& !client_only_index_path(forward_slashes(f.path))
}

pub fn is_server_installable(file: &MrpackFile) -> (r: bool)
    ensures
        r == server_installable(file@),
{
    match &file.env {
        Some(env) => match &env.server {
            Some(server) => {
                if *server == "unsupported".to_owned() {
                    return false;
                }
            },
            None => {},
        },
        None => {},
    }
    let path = to_forward_slashes(&chars_of(file.path.as_str()));
    let shaders = starts_with(&path, &chars_of("shaderpacks/"));
    let resources = starts_with(&path, &chars_of("resourcepacks/"));
    let textures = starts_with(&path, &chars_of("texturepacks/"));
    !(shaders || resources || textures)
}

/// The Modrinth project id of a CDN download URL of the form
/// `https://cdn.modrinth.com/data/{project_id}/versions/...`: the text after
/// the first `/data/`, up to the next `/`.
pub open spec fn project_id_in_url(url: Seq<char>) -> Option<Seq<char>> {
    match first_occurrence_from(url, "/data/"@, 0) {
        Some(k) => Some(before_first(url.skip(k + "/data/"@.len()), '/')),
        None => None,
    }
}

pub fn modrinth_project_id_from_url(url: Option<&String>) -> (r: Option<String>)
    ensures
        opt_view(r) == match url {
            Some(u) => project_id_in_url(u@),
            None => None,
        },
{
    let url = match url {
        Some(url) => url,
        None => return None,
    };
    let chars = chars_of(url.as_str());
    let marker = chars_of("/data/");
    match find_first(&chars, &marker) {
        Some(k) => {
            let rest = slice_from(&chars, k + marker.len());
            let id = prefix_before_first(&rest, '/');
            Some(string_from(&id))
        },
        None => None,
    }
}

/// The part of an archive entry path that precedes `modrinth.index.json`
/// (empty when the entry does not end with it).
pub open spec fn base_folder_of(entry: Seq<char>) -> Seq<char> {
    if has_suffix(entry, "modrinth.index.json"@) {
        entry.take(entry.len() - "modrinth.index.json"@.len())
    } else {
        Seq::empty()
    }
}

pub fn base_folder(manifest_entry: &str) -> (r: String)
    ensures
        r@ == base_folder_of(manifest_entry@),
{
    let entry = chars_of(manifest_entry);
    let name = chars_of("modrinth.index.json");
    if ends_with(&entry, &name) {
        let prefix = slice_to(&entry, entry.len() - name.len());
        string_from(&prefix)
    } else {
        String::new()
    }
}

} // verus!

verus! {

/// Whether an archive entry name (slash-normalized) is the pack manifest,
/// possibly nested under a single base folder.
pub open spec fn is_manifest_entry(name: Seq<char>) -> bool {
    name == "modrinth.index.json"@ || has_suffix(name, "/modrinth.index.json"@)
}

/// The first archive entry name whose slash-normalized form is the pack
/// manifest, in that normalized form.
pub open spec fn first_manifest_entry(names: Seq<Seq<char>>) -> Option<Seq<char>>
    decreases names.len(),
{
    if names.len() == 0 {
        None
    } else if is_manifest_entry(forward_slashes(names[0])) {
        Some(forward_slashes(names[0]))
    } else {
        first_manifest_entry(names.drop_first())
    }
}

/// Locates `modrinth.index.json` among the archive's entry names, tolerating
/// packs whose contents are nested under a single base folder.
pub fn find_manifest_entry(entry_names: &[String]) -> (r: Option<String>)
    ensures
        opt_view(r) == first_manifest_entry(views(entry_names@)),
{
    let manifest = chars_of("modrinth.index.json");
    let nested = chars_of("/modrinth.index.json");
    let mut i: usize = 0;
    assert(views(entry_names@).skip(0) =~= views(entry_names@));
    while i < entry_names.len()
        invariant
            i <= entry_names.len(),
            manifest@ == "modrinth.index.json"@,
            nested@ == "/modrinth.index.json"@,
            first_manifest_entry(views(entry_names@)) == first_manifest_entry(views(entry_names@).skip(i as int)),
        decreases entry_names.len() - i,
    {
        let name = to_forward_slashes(&chars_of(entry_names[i].as_str()));
        assert(views(entry_names@).skip(i as int)[0] == entry_names@[i as int]@);
        if chars_eq(&name, &manifest) || ends_with(&name, &nested) {
            return Some(string_from(&name));
        }
        assert(views(entry_names@).skip(i as int).drop_first() =~= views(entry_names@).skip(i + 1));
        i += 1;
    }
    None
}

/// Image extensions kept for a downloaded modpack icon.
pub open spec fn known_icon_extension(ext: Seq<char>) -> bool {
    ||| ext == "png"@
    ||| ext == "jpg"@
    ||| ext == "jpeg"@
    ||| ext == "gif"@
    ||| ext == "webp"@
    ||| ext == "avif"@
}

/// The file extension under which a modpack icon is stored: the lower-cased
/// text after the last `.` of the URL before any query or fragment, when it
/// is a known image extension; `png` otherwise.
pub open spec fn icon_extension_of(url: Seq<char>) -> Seq<char> {
    let ext = ascii_lower(after_last(before_first_of(url, '?', '#'), '.'));
    if known_icon_extension(ext) {
        ext
    } else {
        "png"@
    }
}

pub fn icon_extension(icon_url: &str) -> (r: String)
    ensures
        r@ == icon_extension_of(icon_url@),
{
    let url = chars_of(icon_url);
    let base = prefix_before_first_of(&url, '?', '#');
    let ext = to_ascii_lower(&suffix_after_last(&base, '.'));
    if chars_eq(&ext, &chars_of("png")) || chars_eq(&ext, &chars_of("jpg")) || chars_eq(
        &ext,
        &chars_of("jpeg"),
    ) || chars_eq(&ext, &chars_of("gif")) || chars_eq(&ext, &chars_of("webp")) || chars_eq(
        &ext,
        &chars_of("avif"),
    ) {
        string_from(&ext)
    } else {
        "png".to_owned()
    }
}

} // verus!

verus! {

pub open spec fn file_views(v: Seq<MrpackFile>) -> Seq<MrpackFileView> {
    v.map_values(|f: MrpackFile| f@)
}

fn copy_hashes(v: &[(String, String)]) -> (r: Vec<(String, String)>)
    ensures
        pair_views(r@) == pair_views(v@),
{
    let mut r: Vec<(String, String)> = Vec::new();
    let mut i: usize = 0;
    while i < v.len()
        invariant
            i <= v.len(),
            pair_views(r@) == pair_views(v@.take(i as int)),
        decreases v.len() - i,
    {
        let ghost old_r = r@;
        r.push((v[i].0.clone(), v[i].1.clone()));
        assert(pair_views(r@) =~= pair_views(old_r).push((v@[i as int].0@, v@[i as int].1@)));
        assert(pair_views(v@.take(i + 1)) =~= pair_views(v@.take(i as int)).push(
            (v@[i as int].0@, v@[i as int].1@),
        ));
        i += 1;
    }
    assert(v@.take(v.len() as int) =~= v@);
    r
}

/// A copy of a file entry with the same view.
pub fn copy_file(f: &MrpackFile) -> (r: MrpackFile)
    ensures
        r@ == f@,
{
    let env = match &f.env {
        Some(env) => Some(MrpackEnv { server: clone_opt_string(&env.server) }),
        None => None,
    };
    let r = MrpackFile {
        path: f.path.clone(),
        hashes: copy_hashes(&f.hashes),
        env,
        downloads: clone_strings(&f.downloads),
        file_size: f.file_size,
    };
    assert(r@.downloads =~= f@.downloads);
    r
}

/// The files of `files` whose server support is `installable`, in order.
pub open spec fn select_by_support(files: Seq<MrpackFileView>, installable: bool) -> Seq<
    MrpackFileView,
>
    decreases files.len(),
{
    if files.len() == 0 {
        Seq::empty()
    } else {
        let rest = select_by_support(files.drop_last(), installable);
        if server_installable(files.last()) == installable {
            rest.push(files.last())
        } else {
            rest
        }
    }
}

/// Every index file is either installed on the server or skipped, never both
/// and never neither: the two selections split the index files between them.
pub proof fn law_partition_covers_every_file(files: Seq<MrpackFileView>)
    ensures
        select_by_support(files, true).len() + select_by_support(files, false).len() == files.len(),
        forall|f: MrpackFileView| #[trigger] select_by_support(files, true).contains(f) <==> (files.contains(f) && server_installable(f)),
        forall|f: MrpackFileView| #[trigger] select_by_support(files, false).contains(f) <==> (files.contains(f) && !server_installable(f)),
    decreases files.len(),
{
    if files.len() > 0 {
        let init = files.drop_last();
        law_partition_covers_every_file(init);
        assert forall|b: bool, f: MrpackFileView| #[trigger] select_by_support(files, b).contains(f) <==> (files.contains(f)
            && server_installable(f) == b) by {
            let rest = select_by_support(init, b);
            if files.contains(f) && server_installable(f) == b {
                let k = choose|k: int| 0 <= k < files.len() && files[k] == f;
                if k < init.len() {
                    assert(init[k] == f);
                    assert(rest.contains(f));
                    let m = choose|m: int| 0 <= m < rest.len() && rest[m] == f;
                    if server_installable(files.last()) == b {
                        assert(rest.push(files.last())[m] == f);
                    }
                } else {
                    assert(rest.push(files.last())[rest.len() as int] == f);
                }
            }
            if select_by_support(files, b).contains(f) {
                let m = choose|m: int| 0 <= m < select_by_support(files, b).len() && select_by_support(files, b)[m] == f;
                if m < rest.len() {
                    assert(rest[m] == f);
                    assert(rest.contains(f));
                    let k = choose|k: int| 0 <= k < init.len() && init[k] == f;
                    assert(files[k] == f);
                } else {
                    assert(files[files.len() - 1] == f);
                }
            }
        }
    }
}

/// Splits the index files into those a server installs and those it skips,
/// each in index order.
pub fn partition_by_server_support(files: &[MrpackFile]) -> (r: (Vec<MrpackFile>, Vec<MrpackFile>))
    ensures
        file_views(r.0@) == select_by_support(file_views(files@), true),
        file_views(r.1@) == select_by_support(file_views(files@), false),
{
    let mut installable: Vec<MrpackFile> = Vec::new();
    let mut excluded: Vec<MrpackFile> = Vec::new();
    let mut i: usize = 0;
    while i < files.len()
        invariant
            i <= files.len(),
            file_views(installable@) == select_by_support(file_views(files@.take(i as int)), true),
            file_views(excluded@) == select_by_support(file_views(files@.take(i as int)), false),
        decreases files.len() - i,
    {
        let ghost old_i = installable@;
        let ghost old_e = excluded@;
        let copy = copy_file(&files[i]);
        assert(file_views(files@.take(i + 1)).drop_last() =~= file_views(files@.take(i as int)));
        assert(file_views(files@.take(i + 1)).last() == files@[i as int]@);
        if is_server_installable(&files[i]) {
            installable.push(copy);
            assert(file_views(installable@) =~= file_views(old_i).push(files@[i as int]@));
        } else {
            excluded.push(copy);
            assert(file_views(excluded@) =~= file_views(old_e).push(files@[i as int]@));
        }
        i += 1;
    }
    assert(files@.take(files.len() as int) =~= files@);
    (installable, excluded)
}

/// The file name of an index path: the text after its last slash, once
/// backslashes are read as slashes.
pub open spec fn index_file_name(path: Seq<char>) -> Seq<char> {
    after_last(forward_slashes(path), '/')
}

pub fn file_name_of(path: &str) -> (r: String)
    ensures
        r@ == index_file_name(path@),
{
    let p = to_forward_slashes(&chars_of(path));
    string_from(&suffix_after_last(&p, '/'))
}

/// The files of `files` whose file name is (when `member`) or is not in `names`.
pub open spec fn select_by_name(files: Seq<MrpackFileView>, names: Set<Seq<char>>, member: bool) -> Seq<
    MrpackFileView,
>
    decreases files.len(),
{
    if files.len() == 0 {
        Seq::empty()
    } else {
        let rest = select_by_name(files.drop_last(), names, member);
        if names.contains(index_file_name(files.last().path)) == member {
            rest.push(files.last())
        } else {
            rest
        }
    }
}

/// Moves every installable file whose file name is reported server-unsupported
/// to the end of the excluded files, keeping both lists in order.
pub fn exclude_server_unsupported(
    installable: &[MrpackFile],
    excluded: &[MrpackFile],
    unsupported_file_names: &[String],
) -> (r: (Vec<MrpackFile>, Vec<MrpackFile>))
    ensures
        file_views(r.0@) == select_by_name(file_views(installable@), string_set(unsupported_file_names@), false),
        file_views(r.1@) == file_views(excluded@) + select_by_name(
            file_views(installable@),
            string_set(unsupported_file_names@),
            true,
        ),
{
    let ghost names = string_set(unsupported_file_names@);
    let mut kept: Vec<MrpackFile> = Vec::new();
    let mut moved: Vec<MrpackFile> = Vec::new();
    let mut i: usize = 0;
    while i < installable.len()
        invariant
            i <= installable.len(),
            names == string_set(unsupported_file_names@),
            file_views(kept@) == select_by_name(file_views(installable@.take(i as int)), names, false),
            file_views(moved@) == select_by_name(file_views(installable@.take(i as int)), names, true),
        decreases installable.len() - i,
    {
        let ghost old_k = kept@;
        let ghost old_m = moved@;
        let name = file_name_of(installable[i].path.as_str());
        let copy = copy_file(&installable[i]);
        assert(file_views(installable@.take(i + 1)).drop_last() =~= file_views(installable@.take(i as int)));
        assert(file_views(installable@.take(i + 1)).last() == installable@[i as int]@);
        if contains_string(unsupported_file_names, &name) {
            moved.push(copy);
            assert(file_views(moved@) =~= file_views(old_m).push(installable@[i as int]@));
        } else {
            kept.push(copy);
            assert(file_views(kept@) =~= file_views(old_k).push(installable@[i as int]@));
        }
        i += 1;
    }
    assert(installable@.take(installable.len() as int) =~= installable@);
    let mut all_excluded: Vec<MrpackFile> = Vec::new();
    let mut j: usize = 0;
    while j < excluded.len()
        invariant
            j <= excluded.len(),
            file_views(all_excluded@) == file_views(excluded@.take(j as int)),
        decreases excluded.len() - j,
    {
        let ghost old_a = all_excluded@;
        all_excluded.push(copy_file(&excluded[j]));
        assert(file_views(all_excluded@) =~= file_views(old_a).push(excluded@[j as int]@));
        assert(file_views(excluded@.take(j + 1)) =~= file_views(excluded@.take(j as int)).push(excluded@[j as int]@));
        j += 1;
    }
    assert(excluded@.take(excluded.len() as int) =~= excluded@);
    let ghost before = all_excluded@;
    let ghost moved_files = moved@;
    all_excluded.append(&mut moved);
    assert(file_views(all_excluded@) =~= file_views(before) + file_views(moved_files));
    (kept, all_excluded)
}

} // verus!

verus! {

/// For a path under `mods/` whose (ASCII lower-cased) name ends in `.jar`,
/// the jar's file name; slashes are normalized first.
pub open spec fn mod_jar_name(path: Seq<char>) -> Option<Seq<char>> {
    let p = forward_slashes(path);
    if has_prefix(p, "mods/"@) && has_suffix(ascii_lower(p), ".jar"@) {
        Some(after_last(p, '/'))
    } else {
        None
    }
}

pub fn mod_jar_file_name(path: &str) -> (r: Option<String>)
    ensures
        opt_view(r) == mod_jar_name(path@),
{
    let p = to_forward_slashes(&chars_of(path));
    let lower = to_ascii_lower(&p);
    if starts_with(&p, &chars_of("mods/")) && ends_with(&lower, &chars_of(".jar")) {
        Some(string_from(&suffix_after_last(&p, '/')))
    } else {
        None
    }
}

/// The first download URL of a file entry.
pub open spec fn first_download(f: MrpackFileView) -> Option<Seq<char>> {
    if f.downloads.len() > 0 {
        Some(f.downloads[0])
    } else {
        None
    }
}

fn first_download_of(f: &MrpackFile) -> (r: Option<String>)
    ensures
        opt_view(r) == first_download(f@),
{
    if f.downloads.len() > 0 {
        Some(f.downloads[0].clone())
    } else {
        None
    }
}

/// The digest recorded under `key` (the first such entry).
pub open spec fn hash_of(hashes: Seq<(Seq<char>, Seq<char>)>, key: Seq<char>) -> Option<Seq<char>>
    decreases hashes.len(),
{
    if hashes.len() == 0 {
        None
    } else if hashes[0].0 == key {
        Some(hashes[0].1)
    } else {
        hash_of(hashes.drop_first(), key)
    }
}

fn sha1_of(hashes: &[(String, String)]) -> (r: Option<String>)
    ensures
        opt_view(r) == hash_of(pair_views(hashes@), "sha1"@),
{
    let key = "sha1".to_owned();
    let mut i: usize = 0;
    assert(pair_views(hashes@).skip(0) =~= pair_views(hashes@));
    while i < hashes.len()
        invariant
            i <= hashes.len(),
            key@ == "sha1"@,
            hash_of(pair_views(hashes@), "sha1"@) == hash_of(pair_views(hashes@).skip(i as int), "sha1"@),
        decreases hashes.len() - i,
    {
        assert(pair_views(hashes@).skip(i as int)[0] == (hashes@[i as int].0@, hashes@[i as int].1@));
        if hashes[i].0 == key {
            return Some(hashes[i].1.clone());
        }
        assert(pair_views(hashes@).skip(i as int).drop_first() =~= pair_views(hashes@).skip(i + 1));
        i += 1;
    }
    None
}

/// File names of the mod jars among `files`, in order.
pub open spec fn mod_jar_names(files: Seq<MrpackFileView>) -> Seq<Seq<char>>
    decreases files.len(),
{
    if files.len() == 0 {
        Seq::empty()
    } else {
        let rest = mod_jar_names(files.drop_last());
        match mod_jar_name(files.last().path) {
            Some(name) => rest.push(name),
            None => rest,
        }
    }
}

/// File names of the mod jars the pack index keeps on the server: such mods
/// are never pruned for their own client-only declaration.
pub fn explicitly_server_installable(installable: &[MrpackFile]) -> (r: Vec<String>)
    ensures
        views(r@) == mod_jar_names(file_views(installable@)),
{
    let mut r: Vec<String> = Vec::new();
    let mut i: usize = 0;
    while i < installable.len()
        invariant
            i <= installable.len(),
            views(r@) == mod_jar_names(file_views(installable@.take(i as int))),
        decreases installable.len() - i,
    {
        let ghost old_r = r@;
        assert(file_views(installable@.take(i + 1)).drop_last() =~= file_views(installable@.take(i as int)));
        assert(file_views(installable@.take(i + 1)).last() == installable@[i as int]@);
        match mod_jar_file_name(installable[i].path.as_str()) {
            Some(name) => {
                r.push(name);
                assert(views(r@) =~= views(old_r).push(name@));
            },
            None => {},
        }
        i += 1;
    }
    assert(installable@.take(installable.len() as int) =~= installable@);
    r
}

/// (Modrinth project id, jar file name) of each mod jar among `files` whose
/// first download URL names a Modrinth project, in order.
pub open spec fn mod_projects(files: Seq<MrpackFileView>) -> Seq<(Seq<char>, Seq<char>)>
    decreases files.len(),
{
    if files.len() == 0 {
        Seq::empty()
    } else {
        let rest = mod_projects(files.drop_last());
        let f = files.last();
        match (mod_jar_name(f.path), first_download(f)) {
            (Some(name), Some(url)) => match project_id_in_url(url) {
                Some(id) => rest.push((id, name)),
                None => rest,
            },
            _ => rest,
        }
    }
}

pub fn modrinth_mod_projects(installable: &[MrpackFile]) -> (r: Vec<(String, String)>)
    ensures
        pair_views(r@) == mod_projects(file_views(installable@)),
{
    let mut r: Vec<(String, String)> = Vec::new();
    let mut i: usize = 0;
    while i < installable.len()
        invariant
            i <= installable.len(),
            pair_views(r@) == mod_projects(file_views(installable@.take(i as int))),
        decreases installable.len() - i,
    {
        let ghost old_r = r@;
        assert(file_views(installable@.take(i + 1)).drop_last() =~= file_views(installable@.take(i as int)));
        assert(file_views(installable@.take(i + 1)).last() == installable@[i as int]@);
        match mod_jar_file_name(installable[i].path.as_str()) {
            Some(name) => {
                let url = first_download_of(&installable[i]);
                match modrinth_project_id_from_url(url.as_ref()) {
                    Some(id) => {
                        r.push((id, name));
                        assert(pair_views(r@) =~= pair_views(old_r).push((id@, name@)));
                    },
                    None => {},
                }
            },
            None => {},
        }
        i += 1;
    }
    assert(installable@.take(installable.len() as int) =~= installable@);
    r
}

/// The file name last associated with project `id` (a later jar of the same
/// project replaces an earlier one).
pub open spec fn last_file_for(entries: Seq<(Seq<char>, Seq<char>)>, id: Seq<char>) -> Option<Seq<char>>
    decreases entries.len(),
{
    if entries.len() == 0 {
        None
    } else if entries.last().0 == id {
        Some(entries.last().1)
    } else {
        last_file_for(entries.drop_last(), id)
    }
}

fn last_file_for_project(entries: &[(String, String)], id: &String) -> (r: Option<String>)
    ensures
        opt_view(r) == last_file_for(pair_views(entries@), id@),
{
    let mut i: usize = entries.len();
    assert(pair_views(entries@).take(entries.len() as int) =~= pair_views(entries@));
    while i > 0
        invariant
            i <= entries.len(),
            last_file_for(pair_views(entries@), id@) == last_file_for(pair_views(entries@).take(i as int), id@),
        decreases i,
    {
        let ghost t = pair_views(entries@).take(i as int);
        assert(t.last() == (entries@[i - 1].0@, entries@[i - 1].1@));
        if entries[i - 1].0 == *id {
            return Some(entries[i - 1].1.clone());
        }
        assert(t.drop_last() =~= pair_views(entries@).take(i - 1));
        i -= 1;
    }
    None
}

/// File names of the installable mod jars whose Modrinth project reports it
/// is unsupported on dedicated servers.
pub open spec fn unsupported_file_names(
    installable: Seq<MrpackFileView>,
    unsupported_ids: Seq<Seq<char>>,
) -> Set<Seq<char>> {
    Set::new(
        |name: Seq<char>|
            exists|k: int|
                0 <= k < unsupported_ids.len() && last_file_for(mod_projects(installable), #[trigger] unsupported_ids[k])
                    == Some(name),
    )
}

pub fn server_unsupported_file_names(installable: &[MrpackFile], unsupported_project_ids: &[String]) -> (r: Vec<String>)
    ensures
        string_set(r@) == unsupported_file_names(file_views(installable@), views(unsupported_project_ids@)),
{
    let entries = modrinth_mod_projects(installable);
    let ghost target = unsupported_file_names(file_views(installable@), views(unsupported_project_ids@));
    let mut r: Vec<String> = Vec::new();
    let mut i: usize = 0;
    while i < unsupported_project_ids.len()
        invariant
            i <= unsupported_project_ids.len(),
            pair_views(entries@) == mod_projects(file_views(installable@)),
            string_set(r@) == Set::new(
                |name: Seq<char>|
                    exists|k: int|
                        0 <= k < i && last_file_for(
                            mod_projects(file_views(installable@)),
                            #[trigger] views(unsupported_project_ids@)[k],
                        ) == Some(name),
            ),
        decreases unsupported_project_ids.len() - i,
    {
        let ghost old_r = r@;
        let found = last_file_for_project(&entries, &unsupported_project_ids[i]);
        assert(views(unsupported_project_ids@)[i as int] == unsupported_project_ids@[i as int]@);
        match found {
            Some(name) => {
                r.push(name);
                proof {
                    lemma_string_set_concat(old_r, seq![name]);
                    assert(r@ =~= old_r + seq![name]);
                    assert(views(seq![name]) =~= seq![name@]);
                }
                assert forall|x: Seq<char>| views(seq![name]).contains(x) <==> x == name@ by {
                    if views(seq![name]).contains(x) {
                        let k = choose|k: int| 0 <= k < 1 && views(seq![name])[k] == x;
                    }
                    if x == name@ {
                        assert(views(seq![name])[0] == name@);
                    }
                }
            },
            None => {},
        }
        assert(string_set(r@) =~= Set::new(
            |name: Seq<char>|
                exists|k: int|
                    0 <= k < i + 1 && last_file_for(
                        mod_projects(file_views(installable@)),
                        #[trigger] views(unsupported_project_ids@)[k],
                    ) == Some(name),
        )) by {
            assert forall|x: Seq<char>| string_set(r@).contains(x) implies exists|k: int|
                0 <= k < i + 1 && last_file_for(
                    mod_projects(file_views(installable@)),
                    #[trigger] views(unsupported_project_ids@)[k],
                ) == Some(x) by {
                if !string_set(old_r).contains(x) {
                    assert(last_file_for(
                        mod_projects(file_views(installable@)),
                        views(unsupported_project_ids@)[i as int],
                    ) == Some(x));
                }
            }
            assert forall|x: Seq<char>| (exists|k: int|
                0 <= k < i + 1 && last_file_for(
                    mod_projects(file_views(installable@)),
                    #[trigger] views(unsupported_project_ids@)[k],
                ) == Some(x)) implies string_set(r@).contains(x) by {
                let k = choose|k: int|
                    0 <= k < i + 1 && last_file_for(
                        mod_projects(file_views(installable@)),
                        #[trigger] views(unsupported_project_ids@)[k],
                    ) == Some(x);
                if k < i {
                    assert(string_set(old_r).contains(x));
                    assert(views(r@).contains(x)) by {
                        let m = choose|m: int| 0 <= m < views(old_r).len() && views(old_r)[m] == x;
                        assert(views(r@)[m] == x);
                    }
                }
            }
        }
        i += 1;
    }
    assert(string_set(r@) =~= target);
    r
}

} // verus!

verus! {

/// The sum of the declared file sizes (files without a size count nothing).
pub open spec fn size_sum(files: Seq<MrpackFileView>) -> int
    decreases files.len(),
{
    if files.len() == 0 {
        0
    } else {
        size_sum(files.drop_last()) + match files.last().file_size {
            Some(size) => size as int,
            None => 0,
        }
    }
}

proof fn lemma_size_sum_prefix(files: Seq<MrpackFileView>, i: int, j: int)
    requires
        0 <= i <= j <= files.len(),
    ensures
        size_sum(files.take(i)) <= size_sum(files.take(j)),
    decreases j - i,
{
    if i < j {
        assert(files.take(j).drop_last() =~= files.take(j - 1));
        lemma_size_sum_prefix(files, i, j - 1);
    }
}

/// The total byte count of the files to download; `None` when it does not
/// fit in a `u64` (where summing the sizes overflows).
pub fn total_file_size(files: &[MrpackFile]) -> (r: Option<u64>)
    ensures
        r matches Some(total) ==> total == size_sum(file_views(files@)),
        r is None <==> size_sum(file_views(files@)) > u64::MAX,
{
    let mut total: u64 = 0;
    let mut i: usize = 0;
    while i < files.len()
        invariant
            i <= files.len(),
            total == size_sum(file_views(files@.take(i as int))),
        decreases files.len() - i,
    {
        assert(file_views(files@.take(i + 1)).drop_last() =~= file_views(files@.take(i as int)));
        assert(file_views(files@.take(i + 1)).last() == files@[i as int]@);
        match files[i].file_size {
            Some(size) => match total.checked_add(size) {
                Some(next) => total = next,
                None => {
                    proof {
                        assert(file_views(files@).take(i + 1) =~= file_views(files@.take(i + 1)));
                        assert(file_views(files@).take(files.len() as int) =~= file_views(files@));
                        lemma_size_sum_prefix(file_views(files@), i + 1, files.len() as int);
                    }
                    return None;
                },
            },
            None => {},
        }
        i += 1;
    }
    assert(files@.take(files.len() as int) =~= files@);
    Some(total)
}

/// A file to fetch into the server directory.
pub struct FileDownload {
    pub path: String,
    pub url: String,
    pub sha1: Option<String>,
    pub size: u64,
}

pub open spec fn download_view(d: FileDownload) -> (Seq<char>, Seq<char>, Option<Seq<char>>, u64) {
    (d.path@, d.url@, opt_view(d.sha1), d.size)
}

/// The downloads for `files`: each file with a download URL, fetched from its
/// first URL, checked against its `sha1` digest, sized by its declared size
/// (0 when undeclared).
pub open spec fn download_plan(files: Seq<MrpackFileView>) -> Seq<(Seq<char>, Seq<char>, Option<Seq<char>>, u64)>
    decreases files.len(),
{
    if files.len() == 0 {
        Seq::empty()
    } else {
        let rest = download_plan(files.drop_last());
        let f = files.last();
        match first_download(f) {
            Some(url) => rest.push(
                (
                    f.path,
                    url,
                    hash_of(f.hashes, "sha1"@),
                    match f.file_size {
                        Some(size) => size,
                        None => 0,
                    },
                ),
            ),
            None => rest,
        }
    }
}

pub fn file_downloads(installable: &[MrpackFile]) -> (r: Vec<FileDownload>)
    ensures
        r@.map_values(|d: FileDownload| download_view(d)) == download_plan(file_views(installable@)),
{
    let mut r: Vec<FileDownload> = Vec::new();
    let mut i: usize = 0;
    while i < installable.len()
        invariant
            i <= installable.len(),
            r@.map_values(|d: FileDownload| download_view(d)) == download_plan(file_views(installable@.take(i as int))),
        decreases installable.len() - i,
    {
        let ghost old_r = r@;
        assert(file_views(installable@.take(i + 1)).drop_last() =~= file_views(installable@.take(i as int)));
        assert(file_views(installable@.take(i + 1)).last() == installable@[i as int]@);
        match first_download_of(&installable[i]) {
            Some(url) => {
                let d = FileDownload {
                    path: installable[i].path.clone(),
                    url,
                    sha1: sha1_of(&installable[i].hashes),
                    size: match installable[i].file_size {
                        Some(size) => size,
                        None => 0,
                    },
                };
                r.push(d);
                assert(r@.map_values(|d: FileDownload| download_view(d)) =~= old_r.map_values(
                    |d: FileDownload| download_view(d),
                ).push(download_view(d)));
            },
            None => {},
        }
        i += 1;
    }
    assert(installable@.take(installable.len() as int) =~= installable@);
    r
}

/// An excluded mod jar fetched only to read the mod ids it owns.
pub struct InspectionCandidate {
    pub file_name: String,
    pub url: String,
    pub sha1: Option<String>,
}

pub open spec fn candidate_view(c: InspectionCandidate) -> (Seq<char>, Seq<char>, Option<Seq<char>>) {
    (c.file_name@, c.url@, opt_view(c.sha1))
}

/// The excluded mod jars with a download URL: jar file name, first URL and
/// `sha1` digest.
pub open spec fn inspection_plan(files: Seq<MrpackFileView>) -> Seq<(Seq<char>, Seq<char>, Option<Seq<char>>)>
    decreases files.len(),
{
    if files.len() == 0 {
        Seq::empty()
    } else {
        let rest = inspection_plan(files.drop_last());
        let f = files.last();
        match (mod_jar_name(f.path), first_download(f)) {
            (Some(name), Some(url)) => rest.push((name, url, hash_of(f.hashes, "sha1"@))),
            _ => rest,
        }
    }
}

pub fn inspection_candidates(excluded: &[MrpackFile]) -> (r: Vec<InspectionCandidate>)
    ensures
        r@.map_values(|c: InspectionCandidate| candidate_view(c)) == inspection_plan(file_views(excluded@)),
{
    let mut r: Vec<InspectionCandidate> = Vec::new();
    let mut i: usize = 0;
    while i < excluded.len()
        invariant
            i <= excluded.len(),
            r@.map_values(|c: InspectionCandidate| candidate_view(c)) == inspection_plan(file_views(excluded@.take(i as int))),
        decreases excluded.len() - i,
    {
        let ghost old_r = r@;
        assert(file_views(excluded@.take(i + 1)).drop_last() =~= file_views(excluded@.take(i as int)));
        assert(file_views(excluded@.take(i + 1)).last() == excluded@[i as int]@);
        match mod_jar_file_name(excluded[i].path.as_str()) {
            Some(name) => match first_download_of(&excluded[i]) {
                Some(url) => {
                    let c = InspectionCandidate { file_name: name, url, sha1: sha1_of(&excluded[i].hashes) };
                    r.push(c);
                    assert(r@.map_values(|c: InspectionCandidate| candidate_view(c)) =~= old_r.map_values(
                        |c: InspectionCandidate| candidate_view(c),
                    ).push(candidate_view(c)));
                },
                None => {},
            },
            None => {},
        }
        i += 1;
    }
    assert(excluded@.take(excluded.len() as int) =~= excluded@);
    r
}

} // verus!

verus! {

/// `a + b`, or `u64::MAX` when that overflows.
pub open spec fn saturating_sum(a: u64, b: u64) -> u64 {
    if a + b > u64::MAX {
        u64::MAX
    } else {
        (a + b) as u64
    }
}

/// The byte count shown after the in-flight file reports `downloaded` bytes:
/// the finished files' bytes plus those (saturating), and never less than
/// what was shown before.
pub open spec fn shown_progress(reported: u64, bytes_done: u64, downloaded: u64) -> u64 {
    if reported >= saturating_sum(bytes_done, downloaded) {
        reported
    } else {
        saturating_sum(bytes_done, downloaded)
    }
}

/// The shown progress never regresses, whatever the in-flight file reports
/// (a restarted attempt reports fewer bytes), and it covers every finished
/// byte and every byte of the in-flight file.
pub proof fn law_shown_progress_never_regresses(reported: u64, bytes_done: u64, downloaded: u64)
    ensures
        shown_progress(reported, bytes_done, downloaded) >= reported,
        shown_progress(reported, bytes_done, downloaded) >= saturating_sum(bytes_done, downloaded),
        shown_progress(reported, bytes_done, downloaded) == reported || shown_progress(reported, bytes_done, downloaded)
            == saturating_sum(bytes_done, downloaded),
{
}

/// Aggregate progress across concurrent file downloads, shown as one bar:
/// the completed files' bytes plus the in-flight file's partial bytes, kept
/// monotonic so the display never regresses.
pub struct AggregateProgress {
    pub bytes_done: u64,
    pub reported: u64,
    pub total: u64,
}

impl AggregateProgress {
    pub fn new(total: u64) -> (r: Self)
        ensures
            r.bytes_done == 0,
            r.reported == 0,
            r.total == total,
    {
        AggregateProgress { bytes_done: 0, reported: 0, total }
    }

    /// Counts a finished file's size as done (wrapping on overflow, as an
    /// atomic counter does).
    pub fn file_finished(&mut self, size: u64)
        ensures
            final(self).bytes_done == (if old(self).bytes_done + size > u64::MAX {
                old(self).bytes_done + size - (u64::MAX + 1)
            } else {
                old(self).bytes_done + size
            }),
            final(self).reported == old(self).reported,
            final(self).total == old(self).total,
    {
        self.bytes_done = self.bytes_done.wrapping_add(size);
    }

    /// Records that the in-flight file has `downloaded` of `file_total` bytes.
    /// Returns the byte count to show and the total to show it against: the
    /// pack's total when known, else the file's own total when known.
    pub fn observe(&mut self, downloaded: u64, file_total: u64) -> (r: (u64, Option<u64>))
        ensures
            r.0 == shown_progress(old(self).reported, old(self).bytes_done, downloaded),
            r.1 == (if old(self).total > 0 {
                Some(old(self).total)
            } else if file_total > 0 {
                Some(file_total)
            } else {
                None
            }),
            final(self).reported == r.0,
            final(self).bytes_done == old(self).bytes_done,
            final(self).total == old(self).total,
            old(self).reported <= final(self).reported,
    {
        let current = self.bytes_done.saturating_add(downloaded);
        let shown = if self.reported >= current {
            self.reported
        } else {
            current
        };
        self.reported = shown;
        let total = if self.total > 0 {
            Some(self.total)
        } else if file_total > 0 {
            Some(file_total)
        } else {
            None
        };
        (shown, total)
    }
}

/// Where a server install stands.
#[derive(Clone, Copy, Debug, PartialEq, Eq, Structural)]
pub enum InstallState {
    /// Started and not yet finished: resumable from the servers list.
    Incomplete,
    /// Ended with an error.
    Failed,
}

/// The modpack a server was installed from.
pub struct ModpackInfo {
    pub project_id: String,
    pub version_id: String,
    pub title: String,
    pub icon_url: Option<String>,
}

/// The install bookkeeping of a server manifest.
pub struct InstallRecord {
    pub install_state: Option<InstallState>,
    pub install_error: Option<String>,
    pub jar_name: Option<String>,
    pub modpack: Option<ModpackInfo>,
}

/// A server of type `forge` boots through its installer's launch arguments.
pub fn is_forge_server(server_type: &str) -> (r: bool)
    ensures
        r == (server_type@ == "forge"@),
{
    chars_eq(&chars_of(server_type), &chars_of("forge"))
}

/// Marks an install as started: incomplete, with no error, and with its
/// source pack recorded when project, version and title are all known.
pub fn begin_install(
    record: &mut InstallRecord,
    project_id: Option<String>,
    version_id: Option<String>,
    title: Option<String>,
    icon_url: Option<String>,
)
    ensures
        final(record).install_state == Some(InstallState::Incomplete),
        final(record).install_error is None,
        final(record).jar_name == old(record).jar_name,
        final(record).modpack == (match (project_id, version_id, title) {
            (Some(p), Some(v), Some(t)) => Some(ModpackInfo { project_id: p, version_id: v, title: t, icon_url }),
            _ => old(record).modpack,
        }),
{
    record.install_state = Some(InstallState::Incomplete);
    record.install_error = None;
    match (project_id, version_id, title) {
        (Some(p), Some(v), Some(t)) => {
            record.modpack = Some(ModpackInfo { project_id: p, version_id: v, title: t, icon_url });
        },
        _ => {},
    }
}

/// Records how an install ended. On success the state and error are cleared
/// and, unless the server is Forge, the launcher jar is recorded; on failure
/// the state is `Failed` with the error message.
pub fn finish_install(record: &mut InstallRecord, is_forge: bool, jar_filename: &str, error: Option<String>)
    ensures
        final(record).modpack == old(record).modpack,
        match error {
            None => {
                &&& final(record).install_state is None
                &&& final(record).install_error is None
                &&& opt_view(final(record).jar_name) == (if is_forge {
                    opt_view(old(record).jar_name)
                } else {
                    Some(jar_filename@)
                })
            },
            Some(e) => {
                &&& final(record).install_state == Some(InstallState::Failed)
                &&& final(record).install_error == Some(e)
                &&& final(record).jar_name == old(record).jar_name
            },
        },
{
    match error {
        None => {
            if !is_forge {
                record.jar_name = Some(String::from_str(jar_filename));
            }
            record.install_state = None;
            record.install_error = None;
        },
        Some(e) => {
            record.install_state = Some(InstallState::Failed);
            record.install_error = Some(e);
        },
    }
}

/// The index files split into those a server installs and those it skips:
/// first by each file's own server support, then moving the installable mod
/// jars whose Modrinth project (in `unsupported_project_ids`) reports no
/// server support to the end of the skipped ones.
pub fn classify_index_files(files: &[MrpackFile], unsupported_project_ids: &[String]) -> (r: (
    Vec<MrpackFile>,
    Vec<MrpackFile>,
))
    ensures
        file_views(r.0@) == select_by_name(
            select_by_support(file_views(files@), true),
            unsupported_file_names(select_by_support(file_views(files@), true), views(unsupported_project_ids@)),
            false,
        ),
        file_views(r.1@) == select_by_support(file_views(files@), false) + select_by_name(
            select_by_support(file_views(files@), true),
            unsupported_file_names(select_by_support(file_views(files@), true), views(unsupported_project_ids@)),
            true,
        ),
{
    let (installable, excluded) = partition_by_server_support(files);
    let names = server_unsupported_file_names(&installable, unsupported_project_ids);
    exclude_server_unsupported(&installable, &excluded, &names)
}

} // verus!
