//! Turning the release a provider picked into a resolved mod: its file, its
//! hash and the mods it requires.

use vstd::prelude::*;
use crate::curseforge::{CurseForgeError, File, FileDependency, published_sha1};
use crate::modrinth::{Dependency, DependencyType, ModrinthError, Version, primary_position};
use crate::mods::{
    ModError, Provider, ModReference, ResolvedMod, curseforge_refs, dependency_views, lemma_ref_views_push,
    modrinth_refs, ref_views, text_views,
};
use crate::text::{decimal, decimal_string, parse_u32, parsed_u32};

verus! {

/// The text of an optional string.
pub open spec fn opt_text(o: Option<String>) -> Option<Seq<char>> {
    match o {
        Some(s) => Some(s@),
        None => None,
    }
}

fn clone_opt(o: &Option<String>) -> (res: Option<String>)
    ensures
        opt_text(res) == opt_text(*o),
{
    match o {
        Some(s) => Some(s.clone()),
        None => None,
    }
}

/// A required Modrinth dependency as resolution needs it: the project to
/// resolve (`lookup` false), or a version whose project has to be looked up
/// first (`lookup` true).
#[derive(Debug)]
pub struct DependencySlot {
    pub lookup: bool,
    pub id: String,
}

/// The slot of a dependency: `None` unless it is required and names a
/// project or a version; a named project wins over a named version.
pub open spec fn slot_of(d: Dependency) -> Option<(bool, Seq<char>)> {
    if d.dependency_type == DependencyType::Required {
        match d.project_id {
            Some(p) => Some((false, p@)),
            None => match d.version_id {
                Some(v) => Some((true, v@)),
                None => None,
            },
        }
    } else {
        None
    }
}

/// The slots of the required dependencies, in order.
pub open spec fn dependency_slots(deps: Seq<Dependency>) -> Seq<(bool, Seq<char>)>
    decreases deps.len(),
{
    if deps.len() == 0 {
        Seq::empty()
    } else {
        match slot_of(deps.last()) {
            Some(s) => dependency_slots(deps.drop_last()).push(s),
            None => dependency_slots(deps.drop_last()),
        }
    }
}

/// Each dependency slot comes from a dependency that is `Required`: a named
/// project gives a project slot with that id, a dependency naming only a
/// version gives a lookup slot with the version id. The slots are in the
/// order of their dependencies, and every required dependency that names a
/// project or a version gives exactly one slot; optional, incompatible and
/// embedded dependencies give none. The result maps each slot to the
/// position of its dependency.
pub proof fn lemma_dependency_slots_sources(deps: Seq<Dependency>) -> (idx: Seq<int>)
    ensures
        idx.len() == dependency_slots(deps).len(),
        forall|k: int, l: int| 0 <= k < l < idx.len() ==> idx[k] < idx[l],
        forall|k: int|
            0 <= k < idx.len() ==> {
                let d = deps[#[trigger] idx[k]];
                let s = dependency_slots(deps)[k];
                &&& 0 <= idx[k] < deps.len()
                &&& d.dependency_type == DependencyType::Required
                &&& if s.0 {
                    d.project_id is None && d.version_id is Some && d.version_id->0@ == s.1
                } else {
                    d.project_id is Some && d.project_id->0@ == s.1
                }
            },
        forall|i: int|
            0 <= i < deps.len() && (#[trigger] deps[i]).dependency_type == DependencyType::Required
                && (deps[i].project_id is Some || deps[i].version_id is Some) ==> exists|k: int|
                0 <= k < idx.len() && idx[k] == i,
    decreases deps.len(),
{
    if deps.len() == 0 {
        Seq::empty()
    } else {
        let rest = deps.drop_last();
        let n = deps.len() - 1;
        let ri = lemma_dependency_slots_sources(rest);
        assert forall|k: int| 0 <= k < n implies #[trigger] deps[k] == rest[k] by {}
        match slot_of(deps.last()) {
            Some(sl) => {
                let idx = ri.push(n);
                assert(dependency_slots(deps) == dependency_slots(rest).push(sl));
                assert forall|k: int| 0 <= k < idx.len() implies {
                    let d = deps[#[trigger] idx[k]];
                    let s = dependency_slots(deps)[k];
                    &&& 0 <= idx[k] < deps.len()
                    &&& d.dependency_type == DependencyType::Required
                    &&& if s.0 {
                        d.project_id is None && d.version_id is Some && d.version_id->0@ == s.1
                    } else {
                        d.project_id is Some && d.project_id->0@ == s.1
                    }
                } by {
                    if k < ri.len() {
                        assert(idx[k] == ri[k]);
                        assert(deps[ri[k]] == rest[ri[k]]);
                    }
                }
                assert forall|i: int|
                    0 <= i < deps.len() && (#[trigger] deps[i]).dependency_type
                        == DependencyType::Required && (deps[i].project_id is Some
                        || deps[i].version_id is Some) implies exists|k: int|
                    0 <= k < idx.len() && idx[k] == i by {
                    if i < n {
                        assert(rest[i] == deps[i]);
                        let k = choose|k: int| 0 <= k < ri.len() && ri[k] == i;
                        assert(idx[k] == i);
                    } else {
                        assert(idx[idx.len() - 1] == i);
                    }
                }
                idx
            },
            None => {
                assert(dependency_slots(deps) == dependency_slots(rest));
                assert forall|k: int| 0 <= k < ri.len() implies {
                    let d = deps[#[trigger] ri[k]];
                    let s = dependency_slots(deps)[k];
                    &&& 0 <= ri[k] < deps.len()
                    &&& d.dependency_type == DependencyType::Required
                    &&& if s.0 {
                        d.project_id is None && d.version_id is Some && d.version_id->0@ == s.1
                    } else {
                        d.project_id is Some && d.project_id->0@ == s.1
                    }
                } by {
                    assert(deps[ri[k]] == rest[ri[k]]);
                }
                assert forall|i: int|
                    0 <= i < deps.len() && (#[trigger] deps[i]).dependency_type
                        == DependencyType::Required && (deps[i].project_id is Some
                        || deps[i].version_id is Some) implies exists|k: int|
                    0 <= k < ri.len() && ri[k] == i by {
                    if i < n {
                        assert(rest[i] == deps[i]);
                    }
                }
                ri
            },
        }
    }
}

/// The views of slots.
pub open spec fn slot_views(slots: Seq<DependencySlot>) -> Seq<(bool, Seq<char>)> {
    slots.map_values(|s: DependencySlot| (s.lookup, s.id@))
}

/// The version ids to look up, in order.
pub open spec fn lookup_ids(slots: Seq<(bool, Seq<char>)>) -> Seq<Seq<char>>
    decreases slots.len(),
{
    if slots.len() == 0 {
        Seq::empty()
    } else if slots.last().0 {
        lookup_ids(slots.drop_last()).push(slots.last().1)
    } else {
        lookup_ids(slots.drop_last())
    }
}

/// The dependency project ids, in order, with the looked-up slots filled from
/// `found` in turn.
pub open spec fn filled(slots: Seq<(bool, Seq<char>)>, found: Seq<Seq<char>>) -> Seq<Seq<char>>
    decreases slots.len(),
{
    if slots.len() == 0 {
        Seq::empty()
    } else if slots.last().0 {
        filled(slots.drop_last(), found.drop_last()).push(found.last())
    } else {
        filled(slots.drop_last(), found).push(slots.last().1)
    }
}

/// How looked-up projects fill the slots: the `m`-th version id asked for
/// (`lookup_ids`) is the version of the `m`-th lookup slot, and the `m`-th
/// project found fills exactly that slot; every other slot keeps its
/// project id; nothing is added or dropped. The result maps each lookup, in
/// order, to its slot's position.
pub proof fn lemma_lookups_fill_their_slots(
    slots: Seq<(bool, Seq<char>)>,
    found: Seq<Seq<char>>,
) -> (idx: Seq<int>)
    requires
        found.len() == lookup_ids(slots).len(),
    ensures
        idx.len() == found.len(),
        filled(slots, found).len() == slots.len(),
        forall|a: int, b: int| 0 <= a < b < idx.len() ==> idx[a] < idx[b],
        forall|m: int|
            0 <= m < idx.len() ==> {
                &&& 0 <= #[trigger] idx[m] < slots.len()
                &&& slots[idx[m]].0
                &&& lookup_ids(slots)[m] == slots[idx[m]].1
                &&& filled(slots, found)[idx[m]] == found[m]
            },
        forall|k: int| 0 <= k < slots.len() && (#[trigger] slots[k]).0 ==> exists|m: int|
            0 <= m < idx.len() && idx[m] == k,
        forall|k: int|
            0 <= k < slots.len() && !(#[trigger] slots[k]).0 ==> filled(slots, found)[k]
                == slots[k].1,
    decreases slots.len(),
{
    if slots.len() == 0 {
        Seq::empty()
    } else {
        let rest = slots.drop_last();
        let n = slots.len() - 1;
        assert forall|k: int| 0 <= k < n implies #[trigger] slots[k] == rest[k] by {}
        if slots.last().0 {
            let fr = found.drop_last();
            assert(lookup_ids(slots) == lookup_ids(rest).push(slots.last().1));
            let ri = lemma_lookups_fill_their_slots(rest, fr);
            let idx = ri.push(n);
            let f = filled(slots, found);
            assert(f == filled(rest, fr).push(found.last()));
            assert forall|m: int| 0 <= m < idx.len() implies {
                &&& 0 <= #[trigger] idx[m] < slots.len()
                &&& slots[idx[m]].0
                &&& lookup_ids(slots)[m] == slots[idx[m]].1
                &&& filled(slots, found)[idx[m]] == found[m]
            } by {
                if m < ri.len() {
                    assert(idx[m] == ri[m]);
                    assert(slots[ri[m]] == rest[ri[m]]);
                    assert(fr[m] == found[m]);
                }
            }
            assert forall|k: int| 0 <= k < slots.len() && (#[trigger] slots[k]).0 implies exists|m: int|
                0 <= m < idx.len() && idx[m] == k by {
                if k < n {
                    assert(rest[k] == slots[k]);
                    let m = choose|m: int| 0 <= m < ri.len() && ri[m] == k;
                    assert(idx[m] == k);
                } else {
                    assert(idx[idx.len() - 1] == k);
                }
            }
            assert forall|k: int|
                0 <= k < slots.len() && !(#[trigger] slots[k]).0 implies filled(slots, found)[k]
                == slots[k].1 by {
                assert(rest[k] == slots[k]);
            }
            idx
        } else {
            assert(lookup_ids(slots) == lookup_ids(rest));
            let ri = lemma_lookups_fill_their_slots(rest, found);
            let f = filled(slots, found);
            assert(f == filled(rest, found).push(slots.last().1));
            assert forall|m: int| 0 <= m < ri.len() implies {
                &&& 0 <= #[trigger] ri[m] < slots.len()
                &&& slots[ri[m]].0
                &&& lookup_ids(slots)[m] == slots[ri[m]].1
                &&& filled(slots, found)[ri[m]] == found[m]
            } by {
                assert(slots[ri[m]] == rest[ri[m]]);
            }
            assert forall|k: int| 0 <= k < slots.len() && (#[trigger] slots[k]).0 implies exists|m: int|
                0 <= m < ri.len() && ri[m] == k by {
                assert(rest[k] == slots[k]);
            }
            assert forall|k: int|
                0 <= k < slots.len() && !(#[trigger] slots[k]).0 implies filled(slots, found)[k]
                == slots[k].1 by {
                if k < n {
                    assert(rest[k] == slots[k]);
                }
            }
            ri
        }
    }
}

/// A Modrinth release taken apart: the resolved mod without its
/// dependencies, and the dependency slots still to fill.
#[derive(Debug)]
pub struct ModrinthPlan {
    pub resolved: ResolvedMod,
    pub slots: Vec<DependencySlot>,
}

/// The first part of resolving a Modrinth reference once its best version
/// is known: the version's file (the primary one, else the first) and its
/// required dependencies. A version without files is
/// `NoCompatibleVersion(project_id)`.
pub fn plan_modrinth(reference: &ModReference, version: &Version) -> (res: Result<
    ModrinthPlan,
    ModError,
>)
    ensures
        primary_position(version.files@) is None <==> res is Err,
        res matches Err(e) ==> (e matches ModError::Modrinth(ModrinthError::NoCompatibleVersion(p))
            && p@ == reference.project_id@),
        res matches Ok(plan) ==> {
            let file = version.files@[primary_position(version.files@)->0];
            &&& plan.resolved.reference@ == reference@
            &&& plan.resolved.version_id@ == version.id@
            &&& plan.resolved.filename@ == file.filename@
            &&& plan.resolved.download_url@ == file.url@
            &&& opt_text(plan.resolved.sha1) == opt_text(file.hashes.sha1)
            &&& plan.resolved.dependencies@.len() == 0
            &&& slot_views(plan.slots@) == dependency_slots(version.dependencies@)
            &&& forall|k: int|
                0 <= k < plan.slots@.len() ==> exists|i: int|
                    0 <= i < version.dependencies@.len() && {
                        let d = #[trigger] version.dependencies@[i];
                        let sl = #[trigger] plan.slots@[k];
                        &&& d.dependency_type == DependencyType::Required
                        &&& if sl.lookup {
                            d.project_id is None && d.version_id is Some && d.version_id->0@
                                == sl.id@
                        } else {
                            d.project_id is Some && d.project_id->0@ == sl.id@
                        }
                    }
            &&& forall|i: int|
                0 <= i < version.dependencies@.len() && (#[trigger] version.dependencies@[i]).dependency_type
                    == DependencyType::Required && version.dependencies@[i].project_id is Some
                    ==> slot_views(plan.slots@).contains(
                    (false, version.dependencies@[i].project_id->0@),
                )
            &&& forall|i: int|
                0 <= i < version.dependencies@.len() && (#[trigger] version.dependencies@[i]).dependency_type
                    == DependencyType::Required && version.dependencies@[i].project_id is None
                    && version.dependencies@[i].version_id is Some ==> slot_views(
                    plan.slots@,
                ).contains((true, version.dependencies@[i].version_id->0@))
        },
{
    let file = match version.primary_file() {
        Some(f) => f,
        None => {
            return Err(
                ModError::Modrinth(ModrinthError::NoCompatibleVersion(reference.project_id.clone())),
            );
        },
    };
    let mut slots: Vec<DependencySlot> = Vec::new();
    let mut i: usize = 0;
    while i < version.dependencies.len()
        invariant
            i <= version.dependencies@.len(),
            slot_views(slots@) == dependency_slots(version.dependencies@.take(i as int)),
        decreases version.dependencies@.len() - i,
    {
        let d = &version.dependencies[i];
        let ghost prefix = version.dependencies@.take(i + 1);
        assert(prefix.drop_last() =~= version.dependencies@.take(i as int));
        assert(prefix.last() == *d);
        if d.dependency_type == DependencyType::Required {
            match &d.project_id {
                Some(p) => {
                    slots.push(DependencySlot { lookup: false, id: p.clone() });
                },
                None => match &d.version_id {
                    Some(v) => {
                        slots.push(DependencySlot { lookup: true, id: v.clone() });
                    },
                    None => {},
                },
            }
        }
        assert(slot_views(slots@) =~= dependency_slots(prefix));
        i = i + 1;
    }
    assert(version.dependencies@.take(version.dependencies@.len() as int) =~= version.dependencies@);
    proof {
        let deps = version.dependencies@;
        let sv = dependency_slots(deps);
        let idx = lemma_dependency_slots_sources(deps);
        assert forall|k: int| 0 <= k < slots@.len() implies exists|i: int|
            0 <= i < deps.len() && {
                let d = #[trigger] deps[i];
                let sl = #[trigger] slots@[k];
                &&& d.dependency_type == DependencyType::Required
                &&& if sl.lookup {
                    d.project_id is None && d.version_id is Some && d.version_id->0@ == sl.id@
                } else {
                    d.project_id is Some && d.project_id->0@ == sl.id@
                }
            } by {
            assert(slot_views(slots@)[k] == sv[k]);
            let i = idx[k];
            assert(deps[i] == deps[idx[k]]);
        }
        assert forall|i: int|
            0 <= i < deps.len() && (#[trigger] deps[i]).dependency_type == DependencyType::Required
                && deps[i].project_id is Some implies slot_views(slots@).contains(
            (false, deps[i].project_id->0@),
        ) by {
            let k = choose|k: int| 0 <= k < idx.len() && idx[k] == i;
            assert(deps[idx[k]] == deps[i]);
            assert(sv[k] == (false, deps[i].project_id->0@));
        }
        assert forall|i: int|
            0 <= i < deps.len() && (#[trigger] deps[i]).dependency_type == DependencyType::Required
                && deps[i].project_id is None && deps[i].version_id is Some implies slot_views(
            slots@,
        ).contains((true, deps[i].version_id->0@)) by {
            let k = choose|k: int| 0 <= k < idx.len() && idx[k] == i;
            assert(deps[idx[k]] == deps[i]);
            assert(sv[k] == (true, deps[i].version_id->0@));
        }
    }
    let resolved = ResolvedMod {
        reference: reference.clone(),
        version_id: version.id.clone(),
        filename: file.filename.clone(),
        download_url: file.url.clone(),
        sha1: clone_opt(&file.hashes.sha1),
        dependencies: Vec::new(),
    };
    Ok(ModrinthPlan { resolved, slots })
}

impl ModrinthPlan {
    /// The version ids whose projects must be looked up, in order.
    pub fn lookups(&self) -> (res: Vec<String>)
        ensures
            text_views(res@) == lookup_ids(slot_views(self.slots@)),
    {
        let ghost sv = slot_views(self.slots@);
        let mut res: Vec<String> = Vec::new();
        let mut i: usize = 0;
        while i < self.slots.len()
            invariant
                sv == slot_views(self.slots@),
                i <= self.slots@.len(),
                text_views(res@) == lookup_ids(sv.take(i as int)),
            decreases self.slots@.len() - i,
        {
            assert(sv.take(i + 1).drop_last() =~= sv.take(i as int));
            assert(sv.take(i + 1).last() == sv[i as int]);
            if self.slots[i].lookup {
                res.push(self.slots[i].id.clone());
            }
            assert(text_views(res@) =~= lookup_ids(sv.take(i + 1)));
            i = i + 1;
        }
        assert(sv.take(sv.len() as int) =~= sv);
        res
    }

    /// The resolved mod, its dependencies the slots in order: a named
    /// project as is, a looked-up version as the project `found` gives for it
    /// (one entry per lookup, in order).
    pub fn finish(self, found: Vec<String>) -> (res: ResolvedMod)
        requires
            found@.len() == lookup_ids(slot_views(self.slots@)).len(),
        ensures
            res.reference@ == self.resolved.reference@,
            res.version_id@ == self.resolved.version_id@,
            res.filename@ == self.resolved.filename@,
            res.download_url@ == self.resolved.download_url@,
            opt_text(res.sha1) == opt_text(self.resolved.sha1),
            dependency_views(res) == modrinth_refs(filled(slot_views(self.slots@), text_views(found@))),
    {
        let ghost sv = slot_views(self.slots@);
        let ghost fv = text_views(found@);
        let found_len = found.len();
        let mut deps: Vec<ModReference> = Vec::new();
        let mut i: usize = 0;
        let mut j: usize = 0;
        proof {
            Self::lemma_lookup_ids_prefix(sv, sv.len() as int);
        }
        while i < self.slots.len()
            invariant
                sv == slot_views(self.slots@),
                fv == text_views(found@),
                fv.len() == lookup_ids(sv).len(),
                fv.len() == found_len,
                i <= sv.len(),
                j == lookup_ids(sv.take(i as int)).len(),
                j <= fv.len(),
                ref_views(deps@) == modrinth_refs(filled(sv.take(i as int), fv.take(j as int))),
            decreases sv.len() - i,
        {
            let ghost pre = sv.take(i + 1);
            assert(pre.drop_last() =~= sv.take(i as int));
            assert(pre.last() == sv[i as int]);
            proof {
                Self::lemma_lookup_ids_prefix(sv, i + 1);
            }
            let ghost old_deps = ref_views(deps@);
            let ghost old_filled = filled(sv.take(i as int), fv.take(j as int));
            if self.slots[i].lookup {
                assert(lookup_ids(pre) == lookup_ids(sv.take(i as int)).push(sv[i as int].1));
                assert(fv.take(j + 1).drop_last() =~= fv.take(j as int));
                assert(filled(pre, fv.take(j + 1)) == old_filled.push(fv[j as int]));
                let r = ModReference::modrinth(found[j].as_str());
                assert(r@ == (Provider::Modrinth, fv[j as int]));
                proof {
                    lemma_ref_views_push(deps@, r);
                }
                deps.push(r);
                j = j + 1;
            } else {
                assert(lookup_ids(pre) == lookup_ids(sv.take(i as int)));
                assert(filled(pre, fv.take(j as int)) == old_filled.push(sv[i as int].1));
                let r = ModReference::modrinth(self.slots[i].id.as_str());
                assert(r@ == (Provider::Modrinth, sv[i as int].1));
                proof {
                    lemma_ref_views_push(deps@, r);
                }
                deps.push(r);
            }
            i = i + 1;
            assert(ref_views(deps@) =~= modrinth_refs(filled(sv.take(i as int), fv.take(j as int)))) by {
                assert(pre =~= sv.take(i as int));
            }
        }
        assert(sv.take(sv.len() as int) =~= sv);
        proof {
            assert(j == fv.len());
            assert(fv.take(j as int) =~= fv);
        }
        let r = self.resolved;
        ResolvedMod {
            reference: r.reference,
            version_id: r.version_id,
            filename: r.filename,
            download_url: r.download_url,
            sha1: r.sha1,
            dependencies: deps,
        }
    }

    proof fn lemma_lookup_ids_prefix(sv: Seq<(bool, Seq<char>)>, i: int)
        requires
            0 <= i <= sv.len(),
        ensures
            lookup_ids(sv.take(i)).len() <= lookup_ids(sv).len(),
        decreases sv.len(),
    {
        if i < sv.len() {
            assert(sv.drop_last().take(i) =~= sv.take(i));
            Self::lemma_lookup_ids_prefix(sv.drop_last(), i);
        } else {
            assert(sv.take(i) =~= sv);
        }
    }
}

/// The ids of the required mods among `deps`, in order.
pub open spec fn required_mod_ids(deps: Seq<FileDependency>) -> Seq<u32>
    decreases deps.len(),
{
    if deps.len() == 0 {
        Seq::empty()
    } else if deps.last().relation_type == 3 {
        required_mod_ids(deps.drop_last()).push(deps.last().mod_id)
    } else {
        required_mod_ids(deps.drop_last())
    }
}

/// The required mod ids are exactly the `mod_id`s of the dependencies whose
/// `relationType` is 3 (CurseForge's RequiredDependency), in their order;
/// dependencies of any other relation (optional, tool, incompatible,
/// include, embedded) give none. The result maps each id to the position of
/// its dependency.
pub proof fn lemma_required_mod_ids_sources(deps: Seq<FileDependency>) -> (idx: Seq<int>)
    ensures
        idx.len() == required_mod_ids(deps).len(),
        forall|k: int, l: int| 0 <= k < l < idx.len() ==> idx[k] < idx[l],
        forall|k: int|
            0 <= k < idx.len() ==> {
                &&& 0 <= #[trigger] idx[k] < deps.len()
                &&& deps[idx[k]].relation_type == 3
                &&& deps[idx[k]].mod_id == required_mod_ids(deps)[k]
            },
        forall|i: int|
            0 <= i < deps.len() && (#[trigger] deps[i]).relation_type == 3 ==> exists|k: int|
                0 <= k < idx.len() && idx[k] == i,
    decreases deps.len(),
{
    if deps.len() == 0 {
        Seq::empty()
    } else {
        let rest = deps.drop_last();
        let n = deps.len() - 1;
        let ri = lemma_required_mod_ids_sources(rest);
        assert forall|k: int| 0 <= k < n implies #[trigger] deps[k] == rest[k] by {}
        if deps.last().relation_type == 3 {
            let idx = ri.push(n);
            assert(required_mod_ids(deps) == required_mod_ids(rest).push(deps.last().mod_id));
            assert forall|k: int| 0 <= k < idx.len() implies {
                &&& 0 <= #[trigger] idx[k] < deps.len()
                &&& deps[idx[k]].relation_type == 3
                &&& deps[idx[k]].mod_id == required_mod_ids(deps)[k]
            } by {
                if k < ri.len() {
                    assert(idx[k] == ri[k]);
                    assert(deps[ri[k]] == rest[ri[k]]);
                }
            }
            assert forall|i: int|
                0 <= i < deps.len() && (#[trigger] deps[i]).relation_type == 3 implies exists|k: int|
                0 <= k < idx.len() && idx[k] == i by {
                if i < n {
                    assert(rest[i] == deps[i]);
                    let k = choose|k: int| 0 <= k < ri.len() && ri[k] == i;
                    assert(idx[k] == i);
                } else {
                    assert(idx[idx.len() - 1] == i);
                }
            }
            idx
        } else {
            assert(required_mod_ids(deps) == required_mod_ids(rest));
            assert forall|k: int| 0 <= k < ri.len() implies {
                &&& 0 <= #[trigger] ri[k] < deps.len()
                &&& deps[ri[k]].relation_type == 3
                &&& deps[ri[k]].mod_id == required_mod_ids(deps)[k]
            } by {
                assert(deps[ri[k]] == rest[ri[k]]);
            }
            assert forall|i: int|
                0 <= i < deps.len() && (#[trigger] deps[i]).relation_type == 3 implies exists|k: int|
                0 <= k < ri.len() && ri[k] == i by {
                if i < n {
                    assert(rest[i] == deps[i]);
                }
            }
            ri
        }
    }
}

/// The mod id a CurseForge reference names, or `InvalidCurseForgeId` when its
/// id is not a decimal `u32`.
pub fn curseforge_mod_id(reference: &ModReference) -> (res: Result<u32, ModError>)
    ensures
        match parsed_u32(reference.project_id@) {
            Some(n) => res == Ok::<u32, ModError>(n),
            None => res matches Err(ModError::InvalidCurseForgeId(p)) && p@
                == reference.project_id@,
        },
{
    match parse_u32(reference.project_id.as_str()) {
        Some(n) => Ok(n),
        None => Err(ModError::InvalidCurseForgeId(reference.project_id.clone())),
    }
}

/// Resolving a CurseForge reference once its best file is known: the file's
/// id, name, download URL, published SHA-1 and required dependencies. A file
/// without a download URL is `NoCompatibleFile(mod_id)`.
pub fn curseforge_resolved(reference: &ModReference, mod_id: u32, file: &File) -> (res: Result<
    ResolvedMod,
    ModError,
>)
    ensures
        file.download_url is None <==> res is Err,
        res matches Err(e) ==> e == ModError::CurseForge(CurseForgeError::NoCompatibleFile(mod_id)),
        res matches Ok(m) ==> {
            &&& m.reference@ == reference@
            &&& m.version_id@ == decimal(file.id as nat)
            &&& m.filename@ == file.file_name@
            &&& Some(m.download_url@) == opt_text(file.download_url)
            &&& opt_text(m.sha1) == published_sha1(file.hashes@)
            &&& dependency_views(m) == curseforge_refs(required_mod_ids(file.dependencies@))
            &&& forall|k: int|
                0 <= k < m.dependencies@.len() ==> exists|i: int|
                    0 <= i < file.dependencies@.len() && (#[trigger] file.dependencies@[i]).relation_type == 3
                        && (#[trigger] m.dependencies@[k]).provider == Provider::CurseForge
                        && m.dependencies@[k].project_id@ == decimal(
                        file.dependencies@[i].mod_id as nat,
                    )
            &&& forall|i: int|
                0 <= i < file.dependencies@.len() && (#[trigger] file.dependencies@[i]).relation_type
                    == 3 ==> dependency_views(m).contains(
                    (Provider::CurseForge, decimal(file.dependencies@[i].mod_id as nat)),
                )
        },
{
    let download_url = match &file.download_url {
        Some(u) => u.clone(),
        None => {
            return Err(ModError::CurseForge(CurseForgeError::NoCompatibleFile(mod_id)));
        },
    };
    let mut deps: Vec<ModReference> = Vec::new();
    let mut i: usize = 0;
    while i < file.dependencies.len()
        invariant
            i <= file.dependencies@.len(),
            ref_views(deps@) == curseforge_refs(required_mod_ids(
                file.dependencies@.take(i as int),
            )),
        decreases file.dependencies@.len() - i,
    {
        let d = &file.dependencies[i];
        let ghost pre = file.dependencies@.take(i + 1);
        assert(pre.drop_last() =~= file.dependencies@.take(i as int));
        assert(pre.last() == *d);
        let ghost old_ids = required_mod_ids(file.dependencies@.take(i as int));
        if d.is_required() {
            assert(required_mod_ids(pre) == old_ids.push(d.mod_id));
            let r = ModReference::curseforge(d.mod_id);
            proof {
                lemma_ref_views_push(deps@, r);
            }
            deps.push(r);
        } else {
            assert(required_mod_ids(pre) == old_ids);
        }
        i = i + 1;
        assert(ref_views(deps@) =~= curseforge_refs(required_mod_ids(pre)));
    }
    assert(file.dependencies@.take(file.dependencies@.len() as int) =~= file.dependencies@);
    proof {
        let fd = file.dependencies@;
        let ids = required_mod_ids(fd);
        let idx = lemma_required_mod_ids_sources(fd);
        assert forall|k: int| 0 <= k < deps@.len() implies exists|i: int|
            0 <= i < fd.len() && (#[trigger] fd[i]).relation_type == 3 && (#[trigger] deps@[k])@ == (
                Provider::CurseForge,
                decimal(fd[i].mod_id as nat),
            ) by {
            assert(ref_views(deps@)[k] == deps@[k]@);
            assert(curseforge_refs(ids)[k] == (Provider::CurseForge, decimal(ids[k] as nat)));
            assert(fd[idx[k]].mod_id == ids[k]);
        }
        assert forall|i: int|
            0 <= i < fd.len() && (#[trigger] fd[i]).relation_type == 3 implies ref_views(
            deps@,
        ).contains((Provider::CurseForge, decimal(fd[i].mod_id as nat))) by {
            let k = choose|k: int| 0 <= k < idx.len() && idx[k] == i;
            assert(fd[idx[k]] == fd[i]);
            assert(curseforge_refs(ids)[k] == (Provider::CurseForge, decimal(ids[k] as nat)));
        }
    }
    let sha1 = match file.sha1() {
        Some(h) => Some(h.to_owned()),
        None => None,
    };
    let ghost dv = deps@;
    let m = ResolvedMod {
        reference: reference.clone(),
        version_id: decimal_string(file.id as u64),
        filename: file.file_name.clone(),
        download_url,
        sha1,
        dependencies: deps,
    };
    assert(m.dependencies@ == dv);
    assert forall|k: int| 0 <= k < m.dependencies@.len() implies exists|i: int|
        0 <= i < file.dependencies@.len() && (#[trigger] file.dependencies@[i]).relation_type == 3
            && (#[trigger] m.dependencies@[k]).provider == Provider::CurseForge
            && m.dependencies@[k].project_id@ == decimal(file.dependencies@[i].mod_id as nat) by {
        assert(m.dependencies@[k] == dv[k]);
    }
    Ok(m)
}

} // verus!
