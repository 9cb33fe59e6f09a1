//! Native libraries: which classifier a library uses on this platform, and
//! how a version's extracted natives are repaired from the cached archives
//! without ever overwriting content that is already there.

use vstd::prelude::*;
use crate::text::{chars_of, has_prefix, occurs_at, split_on, string_from};

verus! {

/// `s` from index `i` on with every occurrence of `pat` replaced by `rep`,
/// scanning left to right without overlaps (`str::replace`).
pub open spec fn replace_from(s: Seq<char>, pat: Seq<char>, rep: Seq<char>, i: int) -> Seq<char>
    decreases s.len() - i,
{
    if i < 0 || i >= s.len() || pat.len() == 0 {
        s.skip(i)
    } else if occurs_at(s, pat, i) {
        rep + replace_from(s, pat, rep, i + pat.len())
    } else {
        seq![s[i]] + replace_from(s, pat, rep, i + 1)
    }
}

fn occurs_at_index(s: &[char], pat: &[char], i: usize) -> (r: bool)
    requires
        i <= s.len(),
    ensures
        r == occurs_at(s@, pat@, i as int),
{
    if pat.len() > s.len() - i {
        return false;
    }
    let mut k: usize = 0;
    while k < pat.len()
        invariant
            i + pat.len() <= s.len(),
            k <= pat.len(),
            forall|m: int| 0 <= m < k ==> s@[i + m] == pat@[m],
        decreases pat.len() - k,
    {
        if s[i + k] != pat[k] {
            assert(s@.subrange(i as int, i + pat.len())[k as int] != pat@[k as int]);
            return false;
        }
        k += 1;
    }
    assert(s@.subrange(i as int, i + pat.len()) =~= pat@);
    true
}

/// `s` with every occurrence of the non-empty `pat` replaced by `rep`.
fn replace_text(s: &str, pat: &str, rep: &str) -> (r: String)
    requires
        pat@.len() > 0,
    ensures
        r@ == replace_from(s@, pat@, rep@, 0),
{
    let cs = chars_of(s);
    let p = chars_of(pat);
    let rp = chars_of(rep);
    let mut out: Vec<char> = Vec::new();
    let mut i: usize = 0;
    while i < cs.len()
        invariant
            i <= cs.len(),
            cs@ == s@,
            p@ == pat@,
            rp@ == rep@,
            p@.len() > 0,
            out@ + replace_from(s@, pat@, rep@, i as int) == replace_from(s@, pat@, rep@, 0),
        decreases cs.len() - i,
    {
        let ghost before = out@;
        if occurs_at_index(&cs, &p, i) {
            let mut piece = chars_of(rep);
            out.append(&mut piece);
            assert(out@ + replace_from(s@, pat@, rep@, i + p.len()) =~= before + replace_from(s@, pat@, rep@, i as int));
            i = i + p.len();
        } else {
            out.push(cs[i]);
            assert(out@ + replace_from(s@, pat@, rep@, i + 1) =~= before + replace_from(s@, pat@, rep@, i as int));
            i = i + 1;
        }
    }
    assert(replace_from(s@, pat@, rep@, i as int) =~= Seq::<char>::empty());
    assert(out@ =~= replace_from(s@, pat@, rep@, 0));
    string_from(&out)
}

/// The classifier a library's natives name for this platform: the entry for
/// the exact OS (with architecture), else the one for the base OS, with
/// `${arch}` replaced by the platform's pointer width.
pub open spec fn native_classifier_of(
    os_entry: Option<Seq<char>>,
    base_os_entry: Option<Seq<char>>,
    arch_width: Seq<char>,
) -> Option<Seq<char>> {
    let chosen = match os_entry {
        Some(c) => Some(c),
        None => base_os_entry,
    };
    match chosen {
        Some(c) => Some(replace_from(c, "${arch}"@, arch_width, 0)),
        None => None,
    }
}

pub fn native_classifier(os_entry: Option<&str>, base_os_entry: Option<&str>, arch_width: &str) -> (r: Option<String>)
    ensures
        match r {
            Some(c) => native_classifier_of(
                match os_entry {
                    Some(e) => Some(e@),
                    None => None,
                },
                match base_os_entry {
                    Some(e) => Some(e@),
                    None => None,
                },
                arch_width@,
            ) == Some(c@),
            None => os_entry is None && base_os_entry is None,
        },
{
    let chosen = match os_entry {
        Some(c) => c,
        None => match base_os_entry {
            Some(c) => c,
            None => return None,
        },
    };
    proof {
        reveal_strlit("${arch}");
    }
    Some(replace_text(chosen, "${arch}", arch_width))
}

/// What lies at the place of an extracted native entry.
#[derive(Clone, Copy, Debug, PartialEq, Eq, Structural)]
pub enum EntryTarget {
    /// Nothing.
    Absent,
    /// A file of this many bytes.
    File { len: u64 },
    /// Something that is not a file (a directory, say).
    Other,
}

/// An entry is restored when its place holds no file, or an empty one.
pub open spec fn entry_needs_restore(target: EntryTarget) -> bool {
    match target {
        EntryTarget::Absent => true,
        EntryTarget::File { len } => len == 0,
        EntryTarget::Other => true,
    }
}

pub fn native_entry_needs_restore(target: EntryTarget) -> (r: bool)
    ensures
        r == entry_needs_restore(target),
{
    match target {
        EntryTarget::Absent => true,
        EntryTarget::File { len } => len == 0,
        EntryTarget::Other => true,
    }
}

/// How an extracted entry is moved into the natives directory.
#[derive(Clone, Copy, Debug, PartialEq, Eq, Structural)]
pub enum RestoreMove {
    /// Leave the place as it is.
    Keep,
    /// Remove the empty placeholder file, then move the entry in.
    ReplaceEmpty,
    /// Move the entry in.
    Place,
}

/// An extracted entry replaces an empty placeholder or fills a free place;
/// anything else already there (another launch may have restored it) stays.
pub open spec fn restore_move(extracted_is_file: bool, target: EntryTarget) -> RestoreMove {
    if !extracted_is_file {
        RestoreMove::Keep
    } else {
        match target {
            EntryTarget::Absent => RestoreMove::Place,
            EntryTarget::File { len } => if len == 0 {
                RestoreMove::ReplaceEmpty
            } else {
                RestoreMove::Keep
            },
            EntryTarget::Other => RestoreMove::Keep,
        }
    }
}

pub fn plan_restore_move(extracted_is_file: bool, target: EntryTarget) -> (r: RestoreMove)
    ensures
        r == restore_move(extracted_is_file, target),
{
    if !extracted_is_file {
        return RestoreMove::Keep;
    }
    match target {
        EntryTarget::Absent => RestoreMove::Place,
        EntryTarget::File { len } => if len == 0 {
            RestoreMove::ReplaceEmpty
        } else {
            RestoreMove::Keep
        },
        EntryTarget::Other => RestoreMove::Keep,
    }
}

/// A repair never overwrites content: a non-empty file, or anything that is
/// not a file, is kept; and an entry is only moved where a restore was due.
pub proof fn law_repair_never_overwrites_content(extracted_is_file: bool, target: EntryTarget)
    ensures
        (target matches EntryTarget::File { len } && len > 0) ==> restore_move(extracted_is_file, target)
            == RestoreMove::Keep,
        target == EntryTarget::Other ==> restore_move(extracted_is_file, target) == RestoreMove::Keep,
        restore_move(extracted_is_file, target) != RestoreMove::Keep ==> entry_needs_restore(target),
{
}

/// The kind of one component of a path, as `std::path::Path::components`
/// reads it.
#[derive(Clone, Copy, Debug, PartialEq, Eq, Structural)]
pub enum PathComponentKind {
    Prefix,
    RootDir,
    CurDir,
    ParentDir,
    Normal,
}

/// Whether `name`, read as a path of this platform, is absolute
/// (`std::path::Path::is_absolute`). That depends on the platform, so nothing
/// is stated of the answer.
#[verifier::external_body]
fn path_is_absolute(name: &str) -> bool {
    std::path::Path::new(name).is_absolute()
}

/// The kinds of the components of `name` read as a path of this platform
/// (`std::path::Path::components`). They depend on the platform; the contract
/// claims only what holds on every platform, as std documents `Component`:
/// a `..` between slashes is a parent-directory component (unless a
/// platform prefix swallows it), and a leading slash gives a root-directory
/// component (or, on Windows, starts a prefix).
#[verifier::external_body]
fn path_component_kinds(name: &str) -> (r: Vec<PathComponentKind>)
    ensures
        has_dot_dot_segment(name@) ==> (r@.contains(PathComponentKind::ParentDir) || r@.contains(
            PathComponentKind::Prefix,
        )),
        has_prefix(name@, "/"@) ==> (r@.contains(PathComponentKind::RootDir) || r@.contains(
            PathComponentKind::Prefix,
        )),
{
    std::path::Path::new(name)
        .components()
        .map(|component| match component {
            std::path::Component::Prefix(_) => PathComponentKind::Prefix,
            std::path::Component::RootDir => PathComponentKind::RootDir,
            std::path::Component::CurDir => PathComponentKind::CurDir,
            std::path::Component::ParentDir => PathComponentKind::ParentDir,
            std::path::Component::Normal(_) => PathComponentKind::Normal,
        })
        .collect()
}

/// Whether one of the `/`-separated segments of `name` is `..`.
pub open spec fn has_dot_dot_segment(name: Seq<char>) -> bool {
    exists|k: int| 0 <= k < split_on(name, '/').len() && #[trigger] split_on(name, '/')[k] == ".."@
}

/// A path stays inside the directory it is joined to when it is relative and
/// has no parent, root or prefix component.
pub open spec fn stays_inside(absolute: bool, kinds: Seq<PathComponentKind>) -> bool {
    &&& !absolute
    &&& forall|k: int|
        0 <= k < kinds.len() ==> {
            let kind = #[trigger] kinds[k];
            kind != PathComponentKind::ParentDir && kind != PathComponentKind::RootDir && kind
                != PathComponentKind::Prefix
        }
}

pub fn components_stay_inside(absolute: bool, kinds: &[PathComponentKind]) -> (r: bool)
    ensures
        r == stays_inside(absolute, kinds@),
{
    if absolute {
        return false;
    }
    let mut i: usize = 0;
    while i < kinds.len()
        invariant
            i <= kinds.len(),
            forall|k: int|
                0 <= k < i ==> {
                    let kind = #[trigger] kinds@[k];
                    kind != PathComponentKind::ParentDir && kind != PathComponentKind::RootDir && kind
                        != PathComponentKind::Prefix
                },
        decreases kinds.len() - i,
    {
        let kind = kinds[i];
        if kind == PathComponentKind::ParentDir || kind == PathComponentKind::RootDir || kind == PathComponentKind::Prefix {
            return false;
        }
        i += 1;
    }
    true
}

/// Whether an archive entry named `name` stays inside the natives directory
/// when extracted there, read by this platform's path rules (see
/// `stays_inside`). Those rules differ between platforms; on every platform
/// a name with a `..` segment or a leading slash is refused.
pub fn native_entry_stays_inside(name: &str) -> (r: bool)
    ensures
        has_dot_dot_segment(name@) || has_prefix(name@, "/"@) ==> !r,
{
    let absolute = path_is_absolute(name);
    let kinds = path_component_kinds(name);
    let r = components_stay_inside(absolute, &kinds);
    proof {
        if r {
            assert forall|kind: PathComponentKind| #[trigger] kinds@.contains(kind) implies kind
                != PathComponentKind::ParentDir && kind != PathComponentKind::RootDir && kind
                != PathComponentKind::Prefix by {
                let k = choose|k: int| 0 <= k < kinds@.len() && kinds@[k] == kind;
                assert(kinds@[k] == kind);
            }
        }
    }
    r
}

} // verus!
