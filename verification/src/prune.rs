//! Planning which installed mods a dedicated server must drop: mods that
//! declare themselves client-only, and, transitively, every mod whose hard
//! dependencies point to a removed or excluded mod.

use vstd::prelude::*;
use crate::text::{contains_string, extend_strings, lemma_string_set_concat, opt_view, string_set, views};
use vstd::string::StringExecFns;

verus! {

/// One entry of a Fabric `depends` object: the dependency's mod id, and
/// whether its specification is an object whose `optional` field is `true`.
pub struct DependencySpec {
    pub id: String,
    pub optional: bool,
}

/// Fabric metadata embedded in a mod jar (`fabric.mod.json`): identity and
/// dependency information.
///
/// `depends` is `Some` only when the document's `depends` value is an object
/// keyed by mod id; its entries keep the object's order. Any other shape (a
/// plain list, a string, ...) declares no hard dependency.
pub struct ModMetadata {
    pub id: Option<String>,
    pub environment: Option<String>,
    pub provides: Vec<String>,
    pub depends: Option<Vec<DependencySpec>>,
}

/// Ids of the non-optional entries of `deps`, in order.
pub open spec fn required_ids(deps: Seq<DependencySpec>) -> Seq<Seq<char>>
    decreases deps.len(),
{
    if deps.len() == 0 {
        Seq::empty()
    } else {
        let rest = required_ids(deps.drop_last());
        if deps.last().optional {
            rest
        } else {
            rest.push(deps.last().id@)
        }
    }
}

impl ModMetadata {
    /// The mod's own id (when declared) followed by every id it provides.
    pub open spec fn owned_id_seq(&self) -> Seq<Seq<char>> {
        match self.id {
            Some(id) => seq![id@] + views(self.provides@),
            None => views(self.provides@),
        }
    }

    /// The ids of the hard (non-optional) dependencies, in declaration order.
    pub open spec fn hard_dependency_seq(&self) -> Seq<Seq<char>> {
        match self.depends {
            Some(deps) => required_ids(deps@),
            None => Seq::empty(),
        }
    }

    pub fn owned_ids(&self) -> (r: Vec<String>)
        ensures
            views(r@) == self.owned_id_seq(),
    {
        let mut r: Vec<String> = Vec::new();
        match &self.id {
            Some(id) => r.push(id.clone()),
            None => {},
        }
        let ghost start = views(r@);
        let mut i: usize = 0;
        while i < self.provides.len()
            invariant
                i <= self.provides.len(),
                views(r@) == start + views(self.provides@.take(i as int)),
                start == (match self.id {
                    Some(id) => seq![id@],
                    None => Seq::<Seq<char>>::empty(),
                }),
            decreases self.provides.len() - i,
        {
            let ghost old_r = r@;
            r.push(self.provides[i].clone());
            assert(views(r@) =~= views(old_r).push(self.provides@[i as int]@));
            assert(views(self.provides@.take(i + 1)) =~= views(self.provides@.take(i as int)).push(
                self.provides@[i as int]@,
            ));
            i += 1;
        }
        assert(self.provides@.take(self.provides.len() as int) =~= self.provides@);
        assert(views(r@) =~= self.owned_id_seq());
        r
    }

    pub fn hard_dependencies(&self) -> (r: Vec<String>)
        ensures
            views(r@) == self.hard_dependency_seq(),
    {
        let mut r: Vec<String> = Vec::new();
        match &self.depends {
            Some(deps) => {
                let mut i: usize = 0;
                while i < deps.len()
                    invariant
                        i <= deps.len(),
                        views(r@) == required_ids(deps@.take(i as int)),
                    decreases deps.len() - i,
                {
                    assert(deps@.take(i + 1).drop_last() =~= deps@.take(i as int));
                    if !deps[i].optional {
                        r.push(deps[i].id.clone());
                    }
                    proof {
                        assert(views(r@) =~= required_ids(deps@.take(i + 1)));
                    }
                    i += 1;
                }
                assert(deps@.take(deps.len() as int) =~= deps@);
            },
            None => {},
        }
        assert(views(r@) =~= self.hard_dependency_seq());
        r
    }
}

} // verus!

verus! {

/// An installed mod jar: where it lies, its file name, and its metadata.
pub struct InstalledMod {
    pub path: String,
    pub file_name: String,
    pub metadata: ModMetadata,
}

/// Every id owned (declared or provided) by some installed mod.
pub open spec fn locally_owned(metas: Seq<InstalledMod>) -> Set<Seq<char>> {
    Set::new(
        |x: Seq<char>|
            exists|i: int| 0 <= i < metas.len() && #[trigger] metas[i].metadata.owned_id_seq().contains(x),
    )
}

/// Excluded ids that no installed mod owns.
pub open spec fn unowned_excluded(metas: Seq<InstalledMod>, unavailable: Seq<String>) -> Set<Seq<char>> {
    Set::new(|x: Seq<char>| views(unavailable).contains(x) && !locally_owned(metas).contains(x))
}

/// The ids owned by the mods removed for being client-only.
pub open spec fn seed_owned(metas: Seq<InstalledMod>, allowed: Seq<String>) -> Set<Seq<char>> {
    Set::new(
        |x: Seq<char>|
            exists|i: int|
                0 <= i < metas.len() && seed_reason(metas[i], allowed) is Some
                    && #[trigger] metas[i].metadata.owned_id_seq().contains(x),
    )
}

/// The ids removed before any cascading: excluded ids that no installed mod
/// owns, and the ids owned by the client-only mods.
pub open spec fn initially_removed(metas: Seq<InstalledMod>, unavailable: Seq<String>, allowed: Seq<String>) -> Set<
    Seq<char>,
> {
    unowned_excluded(metas, unavailable).union(seed_owned(metas, allowed))
}

/// The pack index marks this mod (by mod id or by file name) as server-installable.
pub open spec fn explicitly_allowed(m: InstalledMod, allowed: Seq<String>) -> bool {
    ||| (match m.metadata.id {
        Some(id) => views(allowed).contains(id@),
        None => false,
    })
    ||| views(allowed).contains(m.file_name@)
}

pub open spec fn client_only_reason() -> Seq<char> {
    "client-only"@
}

pub open spec fn requirement_reason(dependency: Seq<char>) -> Seq<char> {
    "requires "@ + dependency
}

/// The reason a mod is removed before any cascading: declared client-only
/// and not explicitly allowed by the pack index.
pub open spec fn seed_reason(m: InstalledMod, allowed: Seq<String>) -> Option<Seq<char>> {
    if !explicitly_allowed(m, allowed) && opt_view(m.metadata.environment) == Some("client"@) {
        Some(client_only_reason())
    } else {
        None
    }
}

pub open spec fn seed_reasons(metas: Seq<InstalledMod>, allowed: Seq<String>) -> Seq<
    Option<Seq<char>>,
> {
    Seq::new(metas.len(), |i: int| seed_reason(metas[i], allowed))
}

/// The first entry of `deps` that lies in `removed`.
pub open spec fn first_removed(deps: Seq<Seq<char>>, removed: Set<Seq<char>>) -> Option<Seq<char>>
    decreases deps.len(),
{
    if deps.len() == 0 {
        None
    } else if removed.contains(deps[0]) {
        Some(deps[0])
    } else {
        first_removed(deps.drop_first(), removed)
    }
}

/// One pass over the mods from index `i` on: every mod not yet planned, and
/// not allowed by the pack index, whose hard dependencies hit the removed set
/// is planned, and its owned ids join
/// the removed set at once. Returns the new reasons, the new removed set, and
/// whether anything changed.
pub open spec fn sweep(
    metas: Seq<InstalledMod>,
    allowed: Seq<String>,
    reasons: Seq<Option<Seq<char>>>,
    removed: Set<Seq<char>>,
    i: int,
) -> (Seq<Option<Seq<char>>>, Set<Seq<char>>, bool)
    decreases metas.len() - i,
{
    if i < 0 || i >= metas.len() {
        (reasons, removed, false)
    } else if reasons[i] is Some || explicitly_allowed(metas[i], allowed) {
        sweep(metas, allowed, reasons, removed, i + 1)
    } else {
        match first_removed(metas[i].metadata.hard_dependency_seq(), removed) {
            Some(d) => {
                let next = sweep(
                    metas,
                    allowed,
                    reasons.update(i, Some(requirement_reason(d))),
                    removed.union(metas[i].metadata.owned_id_seq().to_set()),
                    i + 1,
                );
                (next.0, next.1, true)
            },
            None => sweep(metas, allowed, reasons, removed, i + 1),
        }
    }
}

/// How many mods are not planned for removal.
pub open spec fn count_unplanned(reasons: Seq<Option<Seq<char>>>) -> nat
    decreases reasons.len(),
{
    if reasons.len() == 0 {
        0
    } else {
        count_unplanned(reasons.drop_last()) + if reasons.last() is None {
            1nat
        } else {
            0nat
        }
    }
}

pub proof fn lemma_count_update(reasons: Seq<Option<Seq<char>>>, i: int, v: Seq<char>)
    requires
        0 <= i < reasons.len(),
        reasons[i] is None,
    ensures
        count_unplanned(reasons.update(i, Some(v))) + 1 == count_unplanned(reasons),
    decreases reasons.len(),
{
    let u = reasons.update(i, Some(v));
    if i == reasons.len() - 1 {
        assert(u.drop_last() =~= reasons.drop_last());
    } else {
        assert(u.drop_last() =~= reasons.drop_last().update(i, Some(v)));
        lemma_count_update(reasons.drop_last(), i, v);
    }
}

pub proof fn lemma_sweep_progress(
    metas: Seq<InstalledMod>,
    allowed: Seq<String>,
    reasons: Seq<Option<Seq<char>>>,
    removed: Set<Seq<char>>,
    i: int,
)
    requires
        reasons.len() == metas.len(),
        0 <= i,
    ensures
        sweep(metas, allowed, reasons, removed, i).0.len() == reasons.len(),
        count_unplanned(sweep(metas, allowed, reasons, removed, i).0) <= count_unplanned(reasons),
        sweep(metas, allowed, reasons, removed, i).2 ==> count_unplanned(sweep(metas, allowed, reasons, removed, i).0)
            < count_unplanned(reasons),
        !sweep(metas, allowed, reasons, removed, i).2 ==> sweep(metas, allowed, reasons, removed, i).0 == reasons
            && sweep(metas, allowed, reasons, removed, i).1 == removed,
    decreases metas.len() - i,
{
    if i >= metas.len() {
    } else if reasons[i] is Some || explicitly_allowed(metas[i], allowed) {
        lemma_sweep_progress(metas, allowed, reasons, removed, i + 1);
    } else {
        match first_removed(metas[i].metadata.hard_dependency_seq(), removed) {
            Some(d) => {
                let r2 = reasons.update(i, Some(requirement_reason(d)));
                lemma_count_update(reasons, i, requirement_reason(d));
                lemma_sweep_progress(
                    metas,
                    allowed,
                    r2,
                    removed.union(metas[i].metadata.owned_id_seq().to_set()),
                    i + 1,
                );
            },
            None => {
                lemma_sweep_progress(metas, allowed, reasons, removed, i + 1);
            },
        }
    }
}

/// Repeats passes until one changes nothing.
pub open spec fn settle(
    metas: Seq<InstalledMod>,
    allowed: Seq<String>,
    reasons: Seq<Option<Seq<char>>>,
    removed: Set<Seq<char>>,
) -> (Seq<Option<Seq<char>>>, Set<Seq<char>>)
    decreases count_unplanned(reasons),
    when reasons.len() == metas.len()
{
    let next = sweep(metas, allowed, reasons, removed, 0);
    if next.2 {
        proof {
            lemma_sweep_progress(metas, allowed, reasons, removed, 0);
        }
        settle(metas, allowed, next.0, next.1)
    } else {
        (reasons, removed)
    }
}

/// The settled reasons (one per mod; `None` keeps the mod) and removed ids.
pub open spec fn prune_outcome(
    metas: Seq<InstalledMod>,
    unavailable: Seq<String>,
    allowed: Seq<String>,
) -> (Seq<Option<Seq<char>>>, Set<Seq<char>>) {
    settle(metas, allowed, seed_reasons(metas, allowed), initially_removed(metas, unavailable, allowed))
}

/// The planned removals among the first `n` mods, in order: path and reason.
pub open spec fn planned_removals(
    metas: Seq<InstalledMod>,
    reasons: Seq<Option<Seq<char>>>,
    n: int,
) -> Seq<(Seq<char>, Seq<char>)>
    decreases n,
{
    if n <= 0 {
        Seq::empty()
    } else {
        let rest = planned_removals(metas, reasons, n - 1);
        match reasons[n - 1] {
            Some(reason) => rest.push((metas[n - 1].path@, reason)),
            None => rest,
        }
    }
}

/// The removal plan: every planned mod's path with its reason, in input order.
pub open spec fn prune_plan(
    metas: Seq<InstalledMod>,
    unavailable: Seq<String>,
    allowed: Seq<String>,
) -> Seq<(Seq<char>, Seq<char>)> {
    planned_removals(metas, prune_outcome(metas, unavailable, allowed).0, metas.len() as int)
}

} // verus!

verus! {

pub open spec fn reason_views(v: Seq<Option<String>>) -> Seq<Option<Seq<char>>> {
    v.map_values(|o: Option<String>| opt_view(o))
}

/// Index of the first dependency that lies in `removed`.
fn find_first_removed(deps: &[String], removed: &[String]) -> (r: Option<usize>)
    ensures
        r matches Some(k) ==> k < deps.len() && first_removed(views(deps@), string_set(removed@))
            == Some(deps@[k as int]@),
        r is None ==> first_removed(views(deps@), string_set(removed@)) is None,
{
    let ghost s = string_set(removed@);
    assert(views(deps@).skip(0) =~= views(deps@));
    let mut i: usize = 0;
    while i < deps.len()
        invariant
            i <= deps.len(),
            s == string_set(removed@),
            first_removed(views(deps@), s) == first_removed(views(deps@).skip(i as int), s),
        decreases deps.len() - i,
    {
        let hit = contains_string(removed, &deps[i]);
        assert(views(deps@).skip(i as int)[0] == deps@[i as int]@);
        if hit {
            return Some(i);
        }
        assert(views(deps@).skip(i as int).drop_first() =~= views(deps@).skip(i + 1));
        i += 1;
    }
    assert(views(deps@).skip(deps.len() as int).len() == 0);
    None
}

/// The owned ids of every installed mod.
fn owned_by_all(metas: &[InstalledMod]) -> (r: Vec<String>)
    ensures
        string_set(r@) == locally_owned(metas@),
{
    let mut r: Vec<String> = Vec::new();
    let mut i: usize = 0;
    while i < metas.len()
        invariant
            i <= metas.len(),
            string_set(r@) == Set::new(
                |x: Seq<char>|
                    exists|j: int| 0 <= j < i && #[trigger] metas@[j].metadata.owned_id_seq().contains(x),
            ),
        decreases metas.len() - i,
    {
        let ids = metas[i].metadata.owned_ids();
        let ghost old_r = r@;
        extend_strings(&mut r, &ids);
        proof {
            lemma_string_set_concat(old_r, ids@);
            assert(string_set(r@) =~= Set::new(
                |x: Seq<char>|
                    exists|j: int| 0 <= j < i + 1 && #[trigger] metas@[j].metadata.owned_id_seq().contains(x),
            )) by {
                assert forall|x: Seq<char>| string_set(r@).contains(x) implies exists|j: int| 0 <= j < i + 1 && #[trigger] metas@[j].metadata.owned_id_seq().contains(x) by {
                    if views(ids@).contains(x) {
                        assert(metas@[i as int].metadata.owned_id_seq().contains(x));
                    }
                }
            }
        }
        i += 1;
    }
    assert(string_set(r@) =~= locally_owned(metas@));
    r
}

/// Every id owned (declared or provided) by one of `metas`.
pub open spec fn owned_by(metas: Seq<ModMetadata>) -> Set<Seq<char>> {
    Set::new(|x: Seq<char>| exists|i: int| 0 <= i < metas.len() && #[trigger] metas[i].owned_id_seq().contains(x))
}

/// The mod ids a server cannot get: every id owned by the excluded mods
/// whose metadata was read.
pub fn excluded_mod_ids(inspected: &[ModMetadata]) -> (r: Vec<String>)
    ensures
        string_set(r@) == owned_by(inspected@),
{
    let mut r: Vec<String> = Vec::new();
    let mut i: usize = 0;
    while i < inspected.len()
        invariant
            i <= inspected.len(),
            string_set(r@) == Set::new(
                |x: Seq<char>| exists|j: int| 0 <= j < i && #[trigger] inspected@[j].owned_id_seq().contains(x),
            ),
        decreases inspected.len() - i,
    {
        let ids = inspected[i].owned_ids();
        let ghost old_r = r@;
        extend_strings(&mut r, &ids);
        proof {
            lemma_string_set_concat(old_r, ids@);
            assert(string_set(r@) =~= Set::new(
                |x: Seq<char>| exists|j: int| 0 <= j < i + 1 && #[trigger] inspected@[j].owned_id_seq().contains(x),
            )) by {
                assert forall|x: Seq<char>| string_set(r@).contains(x) implies exists|j: int|
                    0 <= j < i + 1 && #[trigger] inspected@[j].owned_id_seq().contains(x) by {
                    if views(ids@).contains(x) {
                        assert(inspected@[i as int].owned_id_seq().contains(x));
                    }
                }
            }
        }
        i += 1;
    }
    assert(string_set(r@) =~= owned_by(inspected@));
    r
}

/// Excluded ids that no installed mod owns.
fn seed_removed(metas: &[InstalledMod], unavailable: &[String]) -> (r: Vec<String>)
    ensures
        string_set(r@) == unowned_excluded(metas@, unavailable@),
{
    let owned = owned_by_all(metas);
    let mut r: Vec<String> = Vec::new();
    let mut i: usize = 0;
    while i < unavailable.len()
        invariant
            i <= unavailable.len(),
            string_set(owned@) == locally_owned(metas@),
            string_set(r@) == Set::new(
                |x: Seq<char>|
                    views(unavailable@.take(i as int)).contains(x) && !locally_owned(metas@).contains(x),
            ),
        decreases unavailable.len() - i,
    {
        let ghost old_r = r@;
        let ghost u = unavailable@[i as int]@;
        let ghost single = seq![unavailable@[i as int]];
        proof {
            assert(views(single) =~= seq![u]);
            assert forall|x: Seq<char>| string_set(single).contains(x) <==> x == u by {
                if views(single).contains(x) {
                    let k = choose|k: int| 0 <= k < 1 && views(single)[k] == x;
                }
                if x == u {
                    assert(views(single)[0] == u);
                }
            }
            lemma_string_set_concat(unavailable@.take(i as int), single);
            assert(unavailable@.take(i + 1) =~= unavailable@.take(i as int) + single);
        }
        if !contains_string(&owned, &unavailable[i]) {
            r.push(unavailable[i].clone());
            assert(r@ =~= old_r + single);
            proof {
                lemma_string_set_concat(old_r, single);
            }
        }
        proof {
            let target = Set::new(
                |x: Seq<char>|
                    views(unavailable@.take(i + 1)).contains(x) && !locally_owned(metas@).contains(x),
            );
            assert forall|x: Seq<char>| string_set(r@).contains(x) <==> target.contains(x) by {
                assert(string_set(unavailable@.take(i + 1)).contains(x) <==> views(unavailable@.take(i + 1)).contains(x));
                assert(string_set(unavailable@.take(i as int)).contains(x) <==> views(unavailable@.take(i as int)).contains(x));
                assert(string_set(old_r).contains(x) <==> (views(unavailable@.take(i as int)).contains(x) && !locally_owned(metas@).contains(x)));
            }
            assert(string_set(r@) =~= target);
        }
        i += 1;
    }
    assert(unavailable@.take(unavailable.len() as int) =~= unavailable@);
    assert(string_set(r@) =~= unowned_excluded(metas@, unavailable@));
    r
}

} // verus!

verus! {

fn is_explicitly_allowed(m: &InstalledMod, allowed: &[String]) -> (r: bool)
    ensures
        r == explicitly_allowed(*m, allowed@),
{
    let by_id = match &m.metadata.id {
        Some(id) => contains_string(allowed, id),
        None => false,
    };
    by_id || contains_string(allowed, &m.file_name)
}

fn seed_reason_of(m: &InstalledMod, allowed: &[String]) -> (r: Option<String>)
    ensures
        opt_view(r) == seed_reason(*m, allowed@),
{
    if is_explicitly_allowed(m, allowed) {
        return None;
    }
    match &m.metadata.environment {
        Some(environment) => {
            if *environment == "client".to_owned() {
                Some("client-only".to_owned())
            } else {
                None
            }
        },
        None => None,
    }
}

fn seed_all(metas: &[InstalledMod], allowed: &[String]) -> (r: Vec<Option<String>>)
    ensures
        r.len() == metas.len(),
        reason_views(r@) == seed_reasons(metas@, allowed@),
{
    let mut r: Vec<Option<String>> = Vec::new();
    let mut i: usize = 0;
    while i < metas.len()
        invariant
            i <= metas.len(),
            reason_views(r@) == seed_reasons(metas@, allowed@).take(i as int),
        decreases metas.len() - i,
    {
        let reason = seed_reason_of(&metas[i], allowed);
        let ghost old_r = r@;
        r.push(reason);
        assert(reason_views(r@) =~= reason_views(old_r).push(opt_view(reason)));
        assert(seed_reasons(metas@, allowed@)[i as int] == seed_reason(metas@[i as int], allowed@));
        assert(seed_reasons(metas@, allowed@).take(i + 1) =~= seed_reasons(metas@, allowed@).take(
            i as int,
        ).push(seed_reason(metas@[i as int], allowed@)));
        i += 1;
    }
    assert(reason_views(r@) =~= seed_reasons(metas@, allowed@));
    r
}

/// Adds the owned ids of every mod planned in `reasons` to `removed`.
fn add_planned_ids(metas: &[InstalledMod], reasons: &Vec<Option<String>>, removed: &mut Vec<String>)
    requires
        reasons.len() == metas.len(),
    ensures
        string_set(final(removed)@) == string_set(old(removed)@).union(
            Set::new(
                |x: Seq<char>|
                    exists|j: int|
                        0 <= j < metas.len() && reasons@[j] is Some
                            && #[trigger] metas@[j].metadata.owned_id_seq().contains(x),
            ),
        ),
{
    let ghost start = string_set(removed@);
    let mut i: usize = 0;
    while i < metas.len()
        invariant
            i <= metas.len(),
            reasons.len() == metas.len(),
            string_set(removed@) == start.union(
                Set::new(
                    |x: Seq<char>|
                        exists|j: int|
                            0 <= j < i && reasons@[j] is Some
                                && #[trigger] metas@[j].metadata.owned_id_seq().contains(x),
                ),
            ),
        decreases metas.len() - i,
    {
        let ghost old_removed = removed@;
        if reasons[i].is_some() {
            let ids = metas[i].metadata.owned_ids();
            extend_strings(removed, &ids);
            proof {
                lemma_string_set_concat(old_removed, ids@);
            }
        }
        assert(string_set(removed@) =~= start.union(
            Set::new(
                |x: Seq<char>|
                    exists|j: int|
                        0 <= j < i + 1 && reasons@[j] is Some
                            && #[trigger] metas@[j].metadata.owned_id_seq().contains(x),
            ),
        )) by {
            assert forall|x: Seq<char>| string_set(removed@).contains(x) implies start.contains(x) || exists|j: int|
                0 <= j < i + 1 && reasons@[j] is Some && #[trigger] metas@[j].metadata.owned_id_seq().contains(x) by {
                if !string_set(old_removed).contains(x) {
                    assert(metas@[i as int].metadata.owned_id_seq().contains(x));
                }
            }
            assert forall|x: Seq<char>| (exists|j: int|
                0 <= j < i + 1 && reasons@[j] is Some && #[trigger] metas@[j].metadata.owned_id_seq().contains(x))
                implies string_set(removed@).contains(x) by {
                let j = choose|j: int|
                    0 <= j < i + 1 && reasons@[j] is Some && #[trigger] metas@[j].metadata.owned_id_seq().contains(x);
                if j == i {
                    let ids = metas@[i as int].metadata.owned_id_seq();
                    assert(string_set(removed@).contains(x));
                } else {
                    assert(string_set(old_removed).contains(x));
                }
            }
        }
        i += 1;
    }
}

/// One pass of the cascade over all mods (see `sweep`).
fn sweep_all(
    metas: &[InstalledMod],
    allowed: &[String],
    reasons: &mut Vec<Option<String>>,
    removed: &mut Vec<String>,
) -> (changed: bool)
    requires
        old(reasons).len() == metas.len(),
    ensures
        final(reasons).len() == metas.len(),
        reason_views(final(reasons)@) == sweep(metas@, allowed@, reason_views(old(reasons)@), string_set(old(removed)@), 0).0,
        string_set(final(removed)@) == sweep(metas@, allowed@, reason_views(old(reasons)@), string_set(old(removed)@), 0).1,
        changed == sweep(metas@, allowed@, reason_views(old(reasons)@), string_set(old(removed)@), 0).2,
{
    let ghost target = sweep(metas@, allowed@, reason_views(reasons@), string_set(removed@), 0);
    let mut changed = false;
    let mut i: usize = 0;
    while i < metas.len()
        invariant
            i <= metas.len(),
            reasons.len() == metas.len(),
            sweep(metas@, allowed@, reason_views(reasons@), string_set(removed@), i as int).0 == target.0,
            sweep(metas@, allowed@, reason_views(reasons@), string_set(removed@), i as int).1 == target.1,
            target.2 == (changed || sweep(metas@, allowed@, reason_views(reasons@), string_set(removed@), i as int).2),
        decreases metas.len() - i,
    {
        if reasons[i].is_none() && !is_explicitly_allowed(&metas[i], allowed) {
            let deps = metas[i].metadata.hard_dependencies();
            match find_first_removed(&deps, removed) {
                Some(k) => {
                    let ghost pre_reasons = reason_views(reasons@);
                    let ghost pre_removed = string_set(removed@);
                    let reason = "requires ".to_owned().concat(deps[k].as_str());
                    reasons.set(i, Some(reason));
                    let ids = metas[i].metadata.owned_ids();
                    let ghost old_removed = removed@;
                    extend_strings(removed, &ids);
                    proof {
                        lemma_string_set_concat(old_removed, ids@);
                        assert(string_set(ids@) =~= metas@[i as int].metadata.owned_id_seq().to_set());
                        assert(reason_views(reasons@) =~= pre_reasons.update(
                            i as int,
                            Some(requirement_reason(deps@[k as int]@)),
                        ));
                    }
                    changed = true;
                },
                None => {},
            }
        }
        i += 1;
    }
    changed
}

pub open spec fn pair_views(v: Seq<(String, String)>) -> Seq<(Seq<char>, Seq<char>)> {
    v.map_values(|p: (String, String)| (p.0@, p.1@))
}

/// Plans which installed mods must be removed from a server. Seeds are mods
/// declaring themselves client-only, plus every excluded mod id that no
/// installed mod owns; removal then cascades transitively through hard
/// `depends` edges until stable, the ids of every planned mod (client-only
/// seeds included) counting as removed. A mod the pack index marks as
/// server-installable is never pruned. Returns each planned mod's path with a
/// human-readable reason, in input order.
pub fn compute_prune_plan(
    metas: &[InstalledMod],
    unavailable_ids: &[String],
    explicitly_server_installable: &[String],
) -> (plan: Vec<(String, String)>)
    ensures
        pair_views(plan@) == prune_plan(metas@, unavailable_ids@, explicitly_server_installable@),
{
    let mut removed = seed_removed(metas, unavailable_ids);
    let mut reasons = seed_all(metas, explicitly_server_installable);
    add_planned_ids(metas, &reasons, &mut removed);
    proof {
        let allowed = explicitly_server_installable@;
        let planned = Set::new(
            |x: Seq<char>|
                exists|j: int|
                    0 <= j < metas@.len() && reason_views(reasons@)[j] is Some
                        && #[trigger] metas@[j].metadata.owned_id_seq().contains(x),
        );
        assert forall|x: Seq<char>| #[trigger] seed_owned(metas@, allowed).contains(x) <==> Set::new(
            |x: Seq<char>|
                exists|j: int|
                    0 <= j < metas.len() && reasons@[j] is Some && #[trigger] metas@[j].metadata.owned_id_seq().contains(x),
        ).contains(x) by {
            if seed_owned(metas@, allowed).contains(x) {
                let j = choose|j: int|
                    0 <= j < metas@.len() && seed_reason(metas@[j], allowed) is Some
                        && #[trigger] metas@[j].metadata.owned_id_seq().contains(x);
                assert(seed_reasons(metas@, allowed)[j] == seed_reason(metas@[j], allowed));
                assert(reason_views(reasons@)[j] == opt_view(reasons@[j]));
            }
            if exists|j: int|
                0 <= j < metas.len() && reasons@[j] is Some && #[trigger] metas@[j].metadata.owned_id_seq().contains(x) {
                let j = choose|j: int|
                    0 <= j < metas.len() && reasons@[j] is Some && #[trigger] metas@[j].metadata.owned_id_seq().contains(x);
                assert(seed_reasons(metas@, allowed)[j] == seed_reason(metas@[j], allowed));
                assert(reason_views(reasons@)[j] == opt_view(reasons@[j]));
            }
        }
        assert(string_set(removed@) =~= initially_removed(metas@, unavailable_ids@, allowed));
    }
    let ghost outcome = prune_outcome(metas@, unavailable_ids@, explicitly_server_installable@);
    loop
        invariant
            reasons.len() == metas.len(),
            settle(metas@, explicitly_server_installable@, reason_views(reasons@), string_set(removed@)) == outcome,
            outcome == prune_outcome(metas@, unavailable_ids@, explicitly_server_installable@),
        ensures
            reasons.len() == metas.len(),
            reason_views(reasons@) == outcome.0,
        decreases count_unplanned(reason_views(reasons@)),
    {
        let ghost pre_reasons = reason_views(reasons@);
        let ghost pre_removed = string_set(removed@);
        let changed = sweep_all(metas, explicitly_server_installable, &mut reasons, &mut removed);
        proof {
            lemma_sweep_progress(metas@, explicitly_server_installable@, pre_reasons, pre_removed, 0);
        }
        if !changed {
            break;
        }
    }
    let mut plan: Vec<(String, String)> = Vec::new();
    let mut i: usize = 0;
    while i < metas.len()
        invariant
            i <= metas.len(),
            reasons.len() == metas.len(),
            reason_views(reasons@) == outcome.0,
            outcome == prune_outcome(metas@, unavailable_ids@, explicitly_server_installable@),
            pair_views(plan@) == planned_removals(metas@, outcome.0, i as int),
        decreases metas.len() - i,
    {
        match &reasons[i] {
            Some(reason) => {
                assert(reason_views(reasons@)[i as int] == Some(reason@));
                plan.push((metas[i].path.clone(), reason.clone()));
                assert(pair_views(plan@) =~= planned_removals(metas@, outcome.0, i + 1));
            },
            None => {
                assert(reason_views(reasons@)[i as int] is None);
            },
        }
        i += 1;
    }
    plan
}

} // verus!

verus! {

/// `first_removed` finds a dependency of the list in the set, and finds none
/// exactly when no dependency lies in the set.
pub proof fn lemma_first_removed(deps: Seq<Seq<char>>, removed: Set<Seq<char>>)
    ensures
        first_removed(deps, removed) matches Some(d) ==> deps.contains(d) && removed.contains(d),
        first_removed(deps, removed) is None <==> forall|k: int|
            0 <= k < deps.len() ==> !removed.contains(#[trigger] deps[k]),
    decreases deps.len(),
{
    if deps.len() > 0 {
        lemma_first_removed(deps.drop_first(), removed);
        if !removed.contains(deps[0]) {
            if let Some(d) = first_removed(deps.drop_first(), removed) {
                let k = choose|k: int| 0 <= k < deps.drop_first().len() && deps.drop_first()[k] == d;
                assert(deps[k + 1] == d);
            }
            assert forall|k: int| 0 <= k < deps.len() && (forall|m: int|
                0 <= m < deps.drop_first().len() ==> !removed.contains(#[trigger] deps.drop_first()[m]))
                implies !removed.contains(#[trigger] deps[k]) by {
                if k > 0 {
                    assert(deps[k] == deps.drop_first()[k - 1]);
                }
            }
            assert((forall|k: int| 0 <= k < deps.len() ==> !removed.contains(#[trigger] deps[k])) ==> (
            forall|m: int| 0 <= m < deps.drop_first().len() ==> !removed.contains(
                #[trigger] deps.drop_first()[m],
            ))) by {
                if forall|k: int| 0 <= k < deps.len() ==> !removed.contains(#[trigger] deps[k]) {
                    assert forall|m: int| 0 <= m < deps.drop_first().len() implies !removed.contains(
                        #[trigger] deps.drop_first()[m],
                    ) by {
                        assert(deps.drop_first()[m] == deps[m + 1]);
                    }
                }
            }
        }
    }
}

/// Every planned mod carries a reason it can be held to: its own client-only
/// declaration (kept from the seeds), or a hard dependency that was removed;
/// no mod the pack index allows is planned; and the ids of every planned mod
/// are removed.
pub open spec fn justified(
    metas: Seq<InstalledMod>,
    allowed: Seq<String>,
    reasons: Seq<Option<Seq<char>>>,
    removed: Set<Seq<char>>,
) -> bool {
    &&& reasons.len() == metas.len()
    &&& forall|i: int|
        0 <= i < metas.len() && seed_reason(metas[i], allowed) is Some ==> #[trigger] reasons[i]
            == seed_reason(metas[i], allowed)
    &&& forall|i: int| 0 <= i < metas.len() && explicitly_allowed(metas[i], allowed) ==> #[trigger] reasons[i] is None
    &&& forall|i: int, x: Seq<char>|
        0 <= i < metas.len() && reasons[i] is Some && #[trigger] metas[i].metadata.owned_id_seq().contains(x)
            ==> removed.contains(x)
    &&& forall|i: int|
        0 <= i < metas.len() && #[trigger] reasons[i] is Some && seed_reason(metas[i], allowed) is None
            ==> exists|d: Seq<char>|
            reasons[i] == Some(requirement_reason(d)) && #[trigger] metas[i].metadata.hard_dependency_seq().contains(
                d,
            ) && removed.contains(d)
}

/// Every removed id is one of `base` (the ids removed before cascading), or
/// an id owned by a mod planned through its dependencies; and all of `base`
/// is removed.
pub open spec fn accounted(
    metas: Seq<InstalledMod>,
    allowed: Seq<String>,
    reasons: Seq<Option<Seq<char>>>,
    removed: Set<Seq<char>>,
    base: Set<Seq<char>>,
) -> bool {
    &&& base.subset_of(removed)
    &&& forall|x: Seq<char>|
        #[trigger] removed.contains(x) ==> base.contains(x) || exists|j: int|
            0 <= j < metas.len() && reasons[j] is Some && seed_reason(metas[j], allowed) is None
                && #[trigger] metas[j].metadata.owned_id_seq().contains(x)
}

/// No mod kept by `reasons`, other than those the pack index allows,
/// hard-depends on a removed id.
pub open spec fn stable(
    metas: Seq<InstalledMod>,
    allowed: Seq<String>,
    reasons: Seq<Option<Seq<char>>>,
    removed: Set<Seq<char>>,
) -> bool {
    forall|i: int, k: int|
        0 <= i < metas.len() && reasons[i] is None && !explicitly_allowed(metas[i], allowed) && 0 <= k
            < metas[i].metadata.hard_dependency_seq().len() ==> !removed.contains(
            #[trigger] metas[i].metadata.hard_dependency_seq()[k],
        )
}

proof fn lemma_sweep_keeps_invariants(
    metas: Seq<InstalledMod>,
    allowed: Seq<String>,
    reasons: Seq<Option<Seq<char>>>,
    removed: Set<Seq<char>>,
    base: Set<Seq<char>>,
    i: int,
)
    requires
        0 <= i,
        justified(metas, allowed, reasons, removed),
        accounted(metas, allowed, reasons, removed, base),
    ensures
        justified(metas, allowed, sweep(metas, allowed, reasons, removed, i).0, sweep(metas, allowed, reasons, removed, i).1),
        accounted(metas, allowed, sweep(metas, allowed, reasons, removed, i).0, sweep(metas, allowed, reasons, removed, i).1, base),
        !sweep(metas, allowed, reasons, removed, i).2 ==> forall|j: int, k: int|
            i <= j < metas.len() && reasons[j] is None && !explicitly_allowed(metas[j], allowed) && 0 <= k
                < metas[j].metadata.hard_dependency_seq().len() ==> !removed.contains(
                #[trigger] metas[j].metadata.hard_dependency_seq()[k],
            ),
    decreases metas.len() - i,
{
    if i >= metas.len() {
    } else if reasons[i] is Some || explicitly_allowed(metas[i], allowed) {
        lemma_sweep_keeps_invariants(metas, allowed, reasons, removed, base, i + 1);
    } else {
        let deps = metas[i].metadata.hard_dependency_seq();
        lemma_first_removed(deps, removed);
        match first_removed(deps, removed) {
            Some(d) => {
                let owned = metas[i].metadata.owned_id_seq().to_set();
                let r2 = reasons.update(i, Some(requirement_reason(d)));
                let s2 = removed.union(owned);
                assert(seed_reason(metas[i], allowed) is None);
                assert(justified(metas, allowed, r2, s2)) by {
                    assert forall|j: int|
                        0 <= j < metas.len() && #[trigger] r2[j] is Some && seed_reason(metas[j], allowed) is None
                        implies exists|e: Seq<char>|
                        r2[j] == Some(requirement_reason(e)) && #[trigger] metas[j].metadata.hard_dependency_seq().contains(
                            e,
                        ) && s2.contains(e) by {
                        if j == i {
                            assert(r2[j] == Some(requirement_reason(d)));
                            assert(metas[j].metadata.hard_dependency_seq().contains(d));
                        } else {
                            assert(r2[j] == reasons[j]);
                            assert(reasons[j] is Some);
                            let e = choose|e: Seq<char>|
                                reasons[j] == Some(requirement_reason(e)) && #[trigger] metas[j].metadata.hard_dependency_seq().contains(
                                    e,
                                ) && removed.contains(e);
                            assert(metas[j].metadata.hard_dependency_seq().contains(e));
                        }
                    }
                    assert forall|j: int|
                        0 <= j < metas.len() && seed_reason(metas[j], allowed) is Some implies #[trigger] r2[j]
                        == seed_reason(metas[j], allowed) by {
                        if j != i {
                            assert(reasons[j] == seed_reason(metas[j], allowed));
                        }
                    }
                }
                assert(accounted(metas, allowed, r2, s2, base)) by {
                    assert forall|x: Seq<char>| #[trigger] s2.contains(x) implies base.contains(x) || exists|j: int|
                        0 <= j < metas.len() && r2[j] is Some && seed_reason(metas[j], allowed) is None
                            && #[trigger] metas[j].metadata.owned_id_seq().contains(x) by {
                        if removed.contains(x) {
                            if !base.contains(x) {
                                let j = choose|j: int|
                                    0 <= j < metas.len() && reasons[j] is Some && seed_reason(metas[j], allowed) is None
                                        && #[trigger] metas[j].metadata.owned_id_seq().contains(x);
                                assert(j != i);
                                assert(r2[j] == reasons[j]);
                                assert(metas[j].metadata.owned_id_seq().contains(x));
                            }
                        } else {
                            assert(owned.contains(x));
                            assert(r2[i] is Some);
                            assert(metas[i].metadata.owned_id_seq().contains(x));
                        }
                    }
                }
                lemma_sweep_keeps_invariants(metas, allowed, r2, s2, base, i + 1);
            },
            None => {
                lemma_sweep_keeps_invariants(metas, allowed, reasons, removed, base, i + 1);
            },
        }
    }
}

proof fn lemma_settle_properties(
    metas: Seq<InstalledMod>,
    allowed: Seq<String>,
    reasons: Seq<Option<Seq<char>>>,
    removed: Set<Seq<char>>,
    base: Set<Seq<char>>,
)
    requires
        justified(metas, allowed, reasons, removed),
        accounted(metas, allowed, reasons, removed, base),
    ensures
        justified(metas, allowed, settle(metas, allowed, reasons, removed).0, settle(metas, allowed, reasons, removed).1),
        accounted(metas, allowed, settle(metas, allowed, reasons, removed).0, settle(metas, allowed, reasons, removed).1, base),
        stable(metas, allowed, settle(metas, allowed, reasons, removed).0, settle(metas, allowed, reasons, removed).1),
    decreases count_unplanned(reasons),
{
    let next = sweep(metas, allowed, reasons, removed, 0);
    lemma_sweep_keeps_invariants(metas, allowed, reasons, removed, base, 0);
    lemma_sweep_progress(metas, allowed, reasons, removed, 0);
    if next.2 {
        lemma_settle_properties(metas, allowed, next.0, next.1, base);
    } else {
        assert(stable(metas, allowed, reasons, removed));
    }
}

proof fn lemma_prune_outcome_properties(
    metas: Seq<InstalledMod>,
    unavailable: Seq<String>,
    allowed: Seq<String>,
)
    ensures
        justified(metas, allowed, prune_outcome(metas, unavailable, allowed).0, prune_outcome(metas, unavailable, allowed).1),
        accounted(
            metas,
            allowed,
            prune_outcome(metas, unavailable, allowed).0,
            prune_outcome(metas, unavailable, allowed).1,
            initially_removed(metas, unavailable, allowed),
        ),
        stable(metas, allowed, prune_outcome(metas, unavailable, allowed).0, prune_outcome(metas, unavailable, allowed).1),
{
    let seeds = seed_reasons(metas, allowed);
    let base = initially_removed(metas, unavailable, allowed);
    assert(justified(metas, allowed, seeds, base));
    assert(accounted(metas, allowed, seeds, base, base));
    lemma_settle_properties(metas, allowed, seeds, base, base);
}

} // verus!

verus! {

/// A mod that declares itself client-only, and that the pack index does not
/// mark as server-installable, is removed as client-only.
pub proof fn law_client_only_mods_are_removed(
    metas: Seq<InstalledMod>,
    unavailable: Seq<String>,
    allowed: Seq<String>,
    i: int,
)
    requires
        0 <= i < metas.len(),
        opt_view(metas[i].metadata.environment) == Some("client"@),
        !explicitly_allowed(metas[i], allowed),
    ensures
        prune_outcome(metas, unavailable, allowed).0[i] == Some(client_only_reason()),
{
    lemma_prune_outcome_properties(metas, unavailable, allowed);
}

/// A mod the pack index marks as server-installable (by mod id or by file
/// name) is never pruned, whatever its environment or dependencies.
pub proof fn law_explicitly_allowed_mods_are_never_pruned(
    metas: Seq<InstalledMod>,
    unavailable: Seq<String>,
    allowed: Seq<String>,
    i: int,
)
    requires
        0 <= i < metas.len(),
        explicitly_allowed(metas[i], allowed),
    ensures
        prune_outcome(metas, unavailable, allowed).0[i] is None,
{
    lemma_prune_outcome_properties(metas, unavailable, allowed);
}

/// Every removal for a dependency names a hard dependency of that mod which
/// really is removed.
pub proof fn law_requirement_reasons_name_removed_dependencies(
    metas: Seq<InstalledMod>,
    unavailable: Seq<String>,
    allowed: Seq<String>,
    i: int,
)
    requires
        0 <= i < metas.len(),
        prune_outcome(metas, unavailable, allowed).0[i] is Some,
        seed_reason(metas[i], allowed) is None,
    ensures
        exists|d: Seq<char>|
            prune_outcome(metas, unavailable, allowed).0[i] == Some(requirement_reason(d))
                && #[trigger] metas[i].metadata.hard_dependency_seq().contains(d)
                && prune_outcome(metas, unavailable, allowed).1.contains(d),
{
    lemma_prune_outcome_properties(metas, unavailable, allowed);
}

/// Removal cascades through hard `depends` edges until stable: a mod that
/// stays (and that the pack index does not allow) is not client-only, and
/// none of its hard dependencies is an excluded id no installed mod owns or
/// an id owned by any planned mod, client-only ones included.
pub proof fn law_kept_mods_depend_on_nothing_removed(
    metas: Seq<InstalledMod>,
    unavailable: Seq<String>,
    allowed: Seq<String>,
    i: int,
    k: int,
)
    requires
        0 <= i < metas.len(),
        prune_outcome(metas, unavailable, allowed).0[i] is None,
        !explicitly_allowed(metas[i], allowed),
        0 <= k < metas[i].metadata.hard_dependency_seq().len(),
    ensures
        opt_view(metas[i].metadata.environment) != Some("client"@),
        !unowned_excluded(metas, unavailable).contains(metas[i].metadata.hard_dependency_seq()[k]),
        forall|j: int|
            0 <= j < metas.len() && prune_outcome(metas, unavailable, allowed).0[j] is Some
                ==> !(#[trigger] metas[j].metadata.owned_id_seq()).contains(metas[i].metadata.hard_dependency_seq()[k]),
{
    lemma_prune_outcome_properties(metas, unavailable, allowed);
    let outcome = prune_outcome(metas, unavailable, allowed);
    let d = metas[i].metadata.hard_dependency_seq()[k];
    assert(!outcome.1.contains(d));
    assert forall|j: int|
        0 <= j < metas.len() && outcome.0[j] is Some implies !(#[trigger] metas[j].metadata.owned_id_seq()).contains(d) by {
        if metas[j].metadata.owned_id_seq().contains(d) {
            assert(outcome.1.contains(d));
        }
    }
    assert(initially_removed(metas, unavailable, allowed).contains(d) ==> outcome.1.contains(d));
}

/// Every excluded id that no installed mod owns counts as removed, so every
/// mod hard-depending on one is removed too.
pub proof fn law_unowned_excluded_ids_are_removed(
    metas: Seq<InstalledMod>,
    unavailable: Seq<String>,
    allowed: Seq<String>,
    id: Seq<char>,
)
    requires
        views(unavailable).contains(id),
        !locally_owned(metas).contains(id),
    ensures
        prune_outcome(metas, unavailable, allowed).1.contains(id),
{
    lemma_prune_outcome_properties(metas, unavailable, allowed);
    assert(initially_removed(metas, unavailable, allowed).contains(id));
}

/// A removed id is an excluded id that no installed mod owns, an id owned by
/// a mod removed as client-only, or an id owned by a mod removed through its
/// dependencies.
pub proof fn law_removed_ids_are_accounted_for(
    metas: Seq<InstalledMod>,
    unavailable: Seq<String>,
    allowed: Seq<String>,
    id: Seq<char>,
)
    requires
        prune_outcome(metas, unavailable, allowed).1.contains(id),
    ensures
        initially_removed(metas, unavailable, allowed).contains(id) || exists|j: int|
            0 <= j < metas.len() && prune_outcome(metas, unavailable, allowed).0[j] is Some
                && seed_reason(metas[j], allowed) is None
                && #[trigger] metas[j].metadata.owned_id_seq().contains(id),
{
    lemma_prune_outcome_properties(metas, unavailable, allowed);
}

proof fn lemma_quiet_sweep(
    metas: Seq<InstalledMod>,
    allowed: Seq<String>,
    reasons: Seq<Option<Seq<char>>>,
    i: int,
)
    requires
        0 <= i,
    ensures
        !sweep(metas, allowed, reasons, Set::empty(), i).2,
    decreases metas.len() - i,
{
    if i < metas.len() {
        lemma_first_removed(metas[i].metadata.hard_dependency_seq(), Set::empty());
        lemma_quiet_sweep(metas, allowed, reasons, i + 1);
    }
}

/// When no mod is removed for being client-only and every excluded id is
/// owned (declared or provided) by some installed mod, nothing is removed.
pub proof fn law_nothing_to_remove_without_seeds(
    metas: Seq<InstalledMod>,
    unavailable: Seq<String>,
    allowed: Seq<String>,
)
    requires
        forall|i: int| 0 <= i < metas.len() ==> seed_reason(#[trigger] metas[i], allowed) is None,
        forall|x: Seq<char>| views(unavailable).contains(x) ==> #[trigger] locally_owned(metas).contains(x),
    ensures
        prune_plan(metas, unavailable, allowed).len() == 0,
{
    let seeds = seed_reasons(metas, allowed);
    assert(initially_removed(metas, unavailable, allowed) =~= Set::empty());
    lemma_quiet_sweep(metas, allowed, seeds, 0);
    lemma_no_planned_removals(metas, seeds, metas.len() as int);
}

proof fn lemma_no_planned_removals(
    metas: Seq<InstalledMod>,
    reasons: Seq<Option<Seq<char>>>,
    n: int,
)
    requires
        n <= reasons.len(),
        forall|i: int| 0 <= i < reasons.len() ==> #[trigger] reasons[i] is None,
    ensures
        planned_removals(metas, reasons, n).len() == 0,
    decreases n,
{
    if n > 0 {
        lemma_no_planned_removals(metas, reasons, n - 1);
    }
}

} // verus!

verus! {

/// `entry` is the path of one of the first `n` mods with the reason it was
/// planned for.
spec fn names_planned_mod(
    metas: Seq<InstalledMod>,
    reasons: Seq<Option<Seq<char>>>,
    n: int,
    entry: (Seq<char>, Seq<char>),
) -> bool {
    exists|j: int| 0 <= j < n && reasons[j] == Some(entry.1) && entry.0 == #[trigger] metas[j].path@
}

/// Each planned removal among the first `n` mods carries the path of the mod
/// it was planned for, with that mod's reason; and each planned mod among
/// them has such an entry.
proof fn lemma_planned_removals_entries(
    metas: Seq<InstalledMod>,
    reasons: Seq<Option<Seq<char>>>,
    n: int,
)
    requires
        0 <= n <= reasons.len(),
        n <= metas.len(),
    ensures
        forall|k: int|
            0 <= k < planned_removals(metas, reasons, n).len() ==> names_planned_mod(
                metas,
                reasons,
                n,
                #[trigger] planned_removals(metas, reasons, n)[k],
            ),
        forall|j: int|
            0 <= j < n && #[trigger] reasons[j] is Some ==> planned_removals(metas, reasons, n).contains(
                (metas[j].path@, reasons[j]->0),
            ),
    decreases n,
{
    if n > 0 {
        lemma_planned_removals_entries(metas, reasons, n - 1);
        let rest = planned_removals(metas, reasons, n - 1);
        let all = planned_removals(metas, reasons, n);
        assert forall|k: int| 0 <= k < all.len() implies names_planned_mod(metas, reasons, n, #[trigger] all[k]) by {
            if k < rest.len() {
                assert(all[k] == rest[k]);
                assert(names_planned_mod(metas, reasons, n - 1, rest[k]));
                let j = choose|j: int|
                    0 <= j < n - 1 && reasons[j] == Some(rest[k].1) && rest[k].0 == #[trigger] metas[j].path@;
                assert(metas[j].path@ == all[k].0);
            } else {
                assert(all[k] == (metas[n - 1].path@, reasons[n - 1]->0));
                assert(metas[n - 1].path@ == all[k].0);
            }
        }
        assert forall|j: int| 0 <= j < n && #[trigger] reasons[j] is Some implies all.contains(
            (metas[j].path@, reasons[j]->0),
        ) by {
            if j < n - 1 {
                let k = choose|k: int| 0 <= k < rest.len() && rest[k] == (metas[j].path@, reasons[j]->0);
                assert(all[k] == rest[k]);
            } else {
                assert(all[all.len() - 1] == (metas[j].path@, reasons[j]->0));
            }
        }
    }
}

/// Every entry of the removal plan names the installed path of a mod planned
/// for removal, with the reason it was planned for.
pub proof fn law_plan_entries_name_installed_paths(
    metas: Seq<InstalledMod>,
    unavailable: Seq<String>,
    allowed: Seq<String>,
    k: int,
)
    requires
        0 <= k < prune_plan(metas, unavailable, allowed).len(),
    ensures
        exists|j: int|
            0 <= j < metas.len() && prune_outcome(metas, unavailable, allowed).0[j] == Some(
                prune_plan(metas, unavailable, allowed)[k].1,
            ) && prune_plan(metas, unavailable, allowed)[k].0 == #[trigger] metas[j].path@,
{
    lemma_prune_outcome_properties(metas, unavailable, allowed);
    lemma_planned_removals_entries(metas, prune_outcome(metas, unavailable, allowed).0, metas.len() as int);
    let plan = prune_plan(metas, unavailable, allowed);
    assert(names_planned_mod(metas, prune_outcome(metas, unavailable, allowed).0, metas.len() as int, plan[k]));
}

/// Every mod planned for removal appears in the plan under its installed
/// path, with its reason.
pub proof fn law_planned_mods_are_listed_by_path(
    metas: Seq<InstalledMod>,
    unavailable: Seq<String>,
    allowed: Seq<String>,
    i: int,
)
    requires
        0 <= i < metas.len(),
        prune_outcome(metas, unavailable, allowed).0[i] is Some,
    ensures
        prune_plan(metas, unavailable, allowed).contains(
            (metas[i].path@, prune_outcome(metas, unavailable, allowed).0[i]->0),
        ),
{
    lemma_prune_outcome_properties(metas, unavailable, allowed);
    lemma_planned_removals_entries(metas, prune_outcome(metas, unavailable, allowed).0, metas.len() as int);
}

/// A mod that declares itself client-only, and that the pack index does not
/// mark as server-installable, is listed in the plan by the path it is
/// installed at, with the reason "client-only".
pub proof fn law_client_only_mods_are_listed_by_path(
    metas: Seq<InstalledMod>,
    unavailable: Seq<String>,
    allowed: Seq<String>,
    i: int,
)
    requires
        0 <= i < metas.len(),
        opt_view(metas[i].metadata.environment) == Some("client"@),
        !explicitly_allowed(metas[i], allowed),
    ensures
        prune_plan(metas, unavailable, allowed).contains((metas[i].path@, "client-only"@)),
{
    law_client_only_mods_are_removed(metas, unavailable, allowed, i);
    law_planned_mods_are_listed_by_path(metas, unavailable, allowed, i);
}

} // verus!
