//! Resolution of a set of root mods into the closure of their required
//! dependencies, each mod once. The lookups themselves are network calls, so
//! the resolver is a state machine: the caller asks it which reference to
//! look up next, looks it up, and hands it the resolved release, until it
//! says there is nothing left.

use vstd::prelude::*;
use crate::mods::{ModError, ModReference, Provider, ResolvedMod, dependency_views, ref_views};

verus! {

/// The references the resolved mods were resolved for, in order.
pub open spec fn resolved_views(mods: Seq<ResolvedMod>) -> Seq<(Provider, Seq<char>)> {
    mods.map_values(|m: ResolvedMod| m.reference@)
}

/// The first of `xs` that `known` does not hold.
pub open spec fn first_unknown(
    xs: Seq<(Provider, Seq<char>)>,
    known: Seq<(Provider, Seq<char>)>,
) -> Option<(Provider, Seq<char>)>
    decreases xs.len(),
{
    if xs.len() == 0 {
        None
    } else if known.contains(xs[0]) {
        first_unknown(xs.drop_first(), known)
    } else {
        Some(xs[0])
    }
}

/// What is left of `xs` after its first element that `known` does not hold
/// (nothing, when `known` holds them all).
pub open spec fn after_first_unknown(
    xs: Seq<(Provider, Seq<char>)>,
    known: Seq<(Provider, Seq<char>)>,
) -> Seq<(Provider, Seq<char>)>
    decreases xs.len(),
{
    if xs.len() == 0 {
        Seq::empty()
    } else if known.contains(xs[0]) {
        after_first_unknown(xs.drop_first(), known)
    } else {
        xs.drop_first()
    }
}

/// What `first_unknown` finds is among `xs` and not in `known`.
pub proof fn lemma_first_unknown(
    xs: Seq<(Provider, Seq<char>)>,
    known: Seq<(Provider, Seq<char>)>,
)
    ensures
        first_unknown(xs, known) matches Some(x) ==> xs.contains(x) && !known.contains(x),
        first_unknown(xs, known) is None ==> forall|i: int|
            0 <= i < xs.len() ==> known.contains(#[trigger] xs[i]),
    decreases xs.len(),
{
    if xs.len() > 0 {
        lemma_first_unknown(xs.drop_first(), known);
        if known.contains(xs[0]) {
            if let Some(x) = first_unknown(xs, known) {
                let k = choose|k: int| 0 <= k < xs.drop_first().len() && xs.drop_first()[k] == x;
                assert(xs[k + 1] == x);
            } else {
                assert forall|i: int| 0 <= i < xs.len() implies known.contains(#[trigger] xs[i]) by {
                    if i > 0 {
                        assert(xs[i] == xs.drop_first()[i - 1]);
                    }
                }
            }
        }
    }
}

/// Of `deps`, in order, those that `known` does not hold.
pub open spec fn new_dependencies(
    deps: Seq<(Provider, Seq<char>)>,
    known: Seq<(Provider, Seq<char>)>,
) -> Seq<(Provider, Seq<char>)>
    decreases deps.len(),
{
    if deps.len() == 0 {
        Seq::empty()
    } else if known.contains(deps.last()) {
        new_dependencies(deps.drop_last(), known)
    } else {
        new_dependencies(deps.drop_last(), known).push(deps.last())
    }
}

/// The state of one resolution: the mods resolved so far, the references
/// still queued, and the one handed out for lookup.
pub struct Resolver {
    mods: Vec<ResolvedMod>,
    queue: Vec<ModReference>,
    head: usize,
    pending: Option<ModReference>,
    roots: Ghost<Seq<(Provider, Seq<char>)>>,
}

impl Resolver {
    /// The mods resolved so far, in the order they were resolved.
    pub closed spec fn resolved(&self) -> Seq<ResolvedMod> {
        self.mods@
    }

    /// The references resolved so far.
    pub open spec fn keys(&self) -> Seq<(Provider, Seq<char>)> {
        resolved_views(self.resolved())
    }

    /// The references resolution started from.
    pub closed spec fn roots(&self) -> Seq<(Provider, Seq<char>)> {
        self.roots@
    }

    /// The references queued and not yet handed out, in order; some may
    /// already be resolved.
    pub closed spec fn waiting(&self) -> Seq<(Provider, Seq<char>)> {
        ref_views(self.queue@.skip(self.head as int))
    }

    /// The reference handed out for lookup and not yet recorded.
    pub closed spec fn pending(&self) -> Option<(Provider, Seq<char>)> {
        match self.pending {
            Some(p) => Some(p@),
            None => None,
        }
    }

    /// What stays queued after the next step: everything while a reference
    /// is pending, else what follows the first waiting reference not yet
    /// resolved (the resolved ones before it and it itself are dropped).
    pub open spec fn waiting_after_step(&self) -> Seq<(Provider, Seq<char>)> {
        match self.pending() {
            Some(_) => self.waiting(),
            None => after_first_unknown(self.waiting(), self.keys()),
        }
    }

    /// The reference the next step hands out: the pending one, else the
    /// first waiting one not yet resolved.
    pub open spec fn upcoming(&self) -> Option<(Provider, Seq<char>)> {
        match self.pending() {
            Some(p) => Some(p),
            None => first_unknown(self.waiting(), self.keys()),
        }
    }

    /// Nothing is pending and nothing is queued.
    pub closed spec fn is_done(&self) -> bool {
        self.pending is None && self.head == self.queue@.len()
    }

    /// `r` is resolved, pending or waiting.
    pub closed spec fn covered(&self, r: (Provider, Seq<char>)) -> bool {
        self.keys().contains(r) || self.pending() == Some(r) || self.waiting().contains(r)
    }

    /// `r` is a root or a dependency of a resolved mod.
    pub open spec fn reachable(&self, r: (Provider, Seq<char>)) -> bool {
        self.roots().contains(r) || exists|i: int|
            0 <= i < self.resolved().len() && #[trigger] dependency_views(
                self.resolved()[i],
            ).contains(r)
    }

    /// `r` is a root or a dependency of one of the first `n` resolved mods.
    pub open spec fn reached_before(&self, r: (Provider, Seq<char>), n: int) -> bool {
        self.roots().contains(r) || exists|j: int|
            0 <= j < n && #[trigger] dependency_views(self.resolved()[j]).contains(r)
    }

    /// `s` holds every root and, for each resolved mod whose reference it
    /// holds, that mod's dependencies.
    pub open spec fn closed_under_dependencies(&self, s: Set<(Provider, Seq<char>)>) -> bool {
        &&& forall|r: (Provider, Seq<char>)| #[trigger] self.roots().contains(r) ==> s.contains(r)
        &&& forall|i: int, d: (Provider, Seq<char>)|
            0 <= i < self.resolved().len() && s.contains(self.resolved()[i].reference@)
                && #[trigger] dependency_views(self.resolved()[i]).contains(d) ==> s.contains(d)
    }

    /// The resolver's invariant.
    pub closed spec fn wf(&self) -> bool {
        &&& self.head <= self.queue@.len()
        &&& forall|i: int, j: int|
            0 <= i < j < self.mods@.len() ==> (#[trigger] self.mods@[i]).reference@
                != (#[trigger] self.mods@[j]).reference@
        &&& (self.pending() matches Some(p) ==> !self.keys().contains(p) && self.reachable(p))
        &&& forall|r: (Provider, Seq<char>)| #[trigger] self.roots().contains(r) ==> self.covered(r)
        &&& forall|i: int, d: (Provider, Seq<char>)|
            0 <= i < self.mods@.len() && #[trigger] dependency_views(self.mods@[i]).contains(d)
                ==> self.covered(d)
        &&& forall|i: int| 0 <= i < self.queue@.len() ==> self.reachable(#[trigger] self.queue@[i]@)
        &&& forall|i: int| 0 <= i < self.mods@.len() ==> self.reachable(#[trigger] self.mods@[i].reference@)
        &&& forall|i: int|
            0 <= i < self.mods@.len() ==> self.reached_before(#[trigger] self.mods@[i].reference@, i)
    }

    /// A resolver that starts from `roots`, with nothing resolved yet.
    pub fn new(roots: &[ModReference]) -> (res: Self)
        ensures
            res.wf(),
            res.roots() == ref_views(roots@),
            res.resolved().len() == 0,
            res.pending() is None,
            res.waiting() == ref_views(roots@),
    {
        let mut queue: Vec<ModReference> = Vec::new();
        let mut i: usize = 0;
        while i < roots.len()
            invariant
                i <= roots@.len(),
                queue@.len() == i,
                forall|j: int| 0 <= j < i ==> (#[trigger] queue@[j])@ == roots@[j]@,
            decreases roots@.len() - i,
        {
            let c = roots[i].clone();
            assert(c@ == roots@[i as int]@);
            queue.push(c);
            i = i + 1;
        }
        assert(ref_views(queue@) =~= ref_views(roots@));
        let res = Resolver {
            mods: Vec::new(),
            queue,
            head: 0,
            pending: None,
            roots: Ghost(ref_views(roots@)),
        };
        assert(res.queue@.skip(0) =~= res.queue@);
        assert forall|r: (Provider, Seq<char>)| #[trigger] res.roots().contains(r) implies res.covered(
            r,
        ) by {
            assert(res.waiting() == res.roots());
        }
        assert forall|i: int| 0 <= i < res.queue@.len() implies res.reachable(
            #[trigger] res.queue@[i]@,
        ) by {
            assert(ref_views(res.queue@)[i] == res.queue@[i]@);
        }
        res
    }

    /// Whether `r` is already resolved.
    fn is_resolved(&self, r: &ModReference) -> (res: bool)
        ensures
            res == self.keys().contains(r@),
    {
        let mut i: usize = 0;
        while i < self.mods.len()
            invariant
                i <= self.mods@.len(),
                forall|j: int| 0 <= j < i ==> (#[trigger] self.mods@[j]).reference@ != r@,
            decreases self.mods@.len() - i,
        {
            if self.mods[i].reference == *r {
                assert(self.keys()[i as int] == r@);
                return true;
            }
            i = i + 1;
        }
        assert forall|j: int| 0 <= j < self.keys().len() implies #[trigger] self.keys()[j] != r@ by {
            assert(self.keys()[j] == self.mods@[j].reference@);
        }
        false
    }

    /// Hands out the next reference to look up: the pending one if the last
    /// was not recorded yet, else the first queued reference not resolved
    /// already (those before it are dropped from the queue). A CurseForge
    /// reference when no CurseForge client is configured is the error
    /// `CurseForgeNotConfigured`. `Ok(None)` means resolution is done.
    pub fn next_step(&mut self, curseforge_configured: bool) -> (res: Result<
        Option<ModReference>,
        ModError,
    >)
        requires
            old(self).wf(),
        ensures
            final(self).wf(),
            final(self).roots() == old(self).roots(),
            final(self).resolved() == old(self).resolved(),
            final(self).waiting() == old(self).waiting_after_step(),
            old(self).upcoming() is None <==> res matches Ok(None),
            res matches Ok(None) ==> final(self).is_done(),
            res matches Ok(Some(r)) ==> {
                &&& old(self).upcoming() == Some(r@)
                &&& !old(self).keys().contains(r@)
                &&& final(self).pending() == Some(r@)
                &&& !(r.provider == Provider::CurseForge && !curseforge_configured)
            },
            res matches Err(e) ==> (e matches ModError::CurseForgeNotConfigured(r) && {
                &&& old(self).upcoming() == Some(r@)
                &&& final(self).pending() == Some(r@)
                &&& r.provider == Provider::CurseForge
                &&& !curseforge_configured
            }),
    {
        proof {
            lemma_first_unknown(self.waiting(), self.keys());
        }
        let found = match &self.pending {
            Some(p) => Some(p.clone()),
            None => self.advance(),
        };
        match found {
            None => Ok(None),
            Some(r) => {
                if r.provider == Provider::CurseForge && !curseforge_configured {
                    Err(ModError::CurseForgeNotConfigured(r))
                } else {
                    Ok(Some(r))
                }
            },
        }
    }

    /// Drops resolved references from the front of the queue and makes the
    /// first unresolved one pending.
    fn advance(&mut self) -> (res: Option<ModReference>)
        requires
            old(self).wf(),
            old(self).pending() is None,
        ensures
            final(self).wf(),
            final(self).roots() == old(self).roots(),
            final(self).resolved() == old(self).resolved(),
            final(self).waiting() == after_first_unknown(old(self).waiting(), old(self).keys()),
            old(self).upcoming() is None <==> res is None,
            res is None ==> final(self).is_done(),
            res matches Some(r) ==> old(self).upcoming() == Some(r@) && final(self).pending() == Some(
                r@,
            ),
    {
        let ghost first = old(self).upcoming();
        let ghost rest = after_first_unknown(old(self).waiting(), old(self).keys());
        while self.head < self.queue.len()
            invariant
                self.wf(),
                self.pending() is None,
                self.roots() == old(self).roots(),
                self.resolved() == old(self).resolved(),
                first_unknown(self.waiting(), self.keys()) == first,
                after_first_unknown(self.waiting(), self.keys()) == rest,
                first == old(self).upcoming(),
                rest == after_first_unknown(old(self).waiting(), old(self).keys()),
            decreases self.queue@.len() - self.head,
        {
            let r = self.queue[self.head].clone();
            let ghost w = self.waiting();
            assert(w[0] == r@);
            assert(w.drop_first() =~= ref_views(self.queue@.skip(self.head + 1)));
            if !self.is_resolved(&r) {
                assert(first_unknown(w, self.keys()) == Some(w[0]));
                assert(after_first_unknown(w, self.keys()) == w.drop_first());
                proof {
                    assert(self.reachable(self.queue@[self.head as int]@));
                }
                let ghost before = *self;
                self.head = self.head + 1;
                self.pending = Some(r.clone());
                proof {
                    self.lemma_covered_after_handout(before, r@);
                }
                return Some(r);
            }
            assert(first_unknown(w, self.keys()) == first_unknown(w.drop_first(), self.keys()));
            assert(after_first_unknown(w, self.keys()) == after_first_unknown(
                w.drop_first(),
                self.keys(),
            ));
            let ghost before = *self;
            self.head = self.head + 1;
            assert(self.waiting() == w.drop_first());
            proof {
                self.lemma_covered_after_pop(before);
            }
        }
        proof {
            assert(self.waiting().len() == 0);
            assert(self.waiting() =~= after_first_unknown(self.waiting(), self.keys()));
        }
        None
    }

    /// After the front of the queue is dropped, while it is resolved or now
    /// pending, everything covered before is still covered.
    proof fn lemma_covered_after_pop(&self, before: Self)
        requires
            before.pending() is None,
            before.head < before.queue@.len(),
            self.mods == before.mods,
            self.queue == before.queue,
            self.roots == before.roots,
            self.head == before.head + 1,
            before.keys().contains(before.queue@[before.head as int]@) || self.pending() == Some(
                before.queue@[before.head as int]@,
            ),
        ensures
            forall|x: (Provider, Seq<char>)| before.covered(x) ==> self.covered(x),
    {
        assert(before.waiting()[0] == before.queue@[before.head as int]@);
        assert(before.waiting().drop_first() =~= self.waiting());
        assert(self.keys() == before.keys());
        assert forall|x: (Provider, Seq<char>)| before.covered(x) implies self.covered(x) by {
            if before.waiting().contains(x) && !self.waiting().contains(x) {
                let k = choose|k: int| 0 <= k < before.waiting().len() && before.waiting()[k] == x;
                if k > 0 {
                    assert(self.waiting()[k - 1] == x);
                }
            }
        }
    }

    /// After handing out `r` from the front of the queue, everything covered
    /// before is still covered.
    proof fn lemma_covered_after_handout(&self, before: Self, r: (Provider, Seq<char>))
        requires
            before.wf(),
            before.pending() is None,
            before.head < before.queue@.len(),
            before.queue@[before.head as int]@ == r,
            !before.keys().contains(r),
            before.reachable(r),
            self.mods == before.mods,
            self.queue == before.queue,
            self.roots == before.roots,
            self.head == before.head + 1,
            self.pending() == Some(r),
        ensures
            self.wf(),
            forall|x: (Provider, Seq<char>)| before.covered(x) ==> self.covered(x),
    {
        assert(self.resolved() == before.resolved());
        assert(self.roots() == before.roots());
        self.lemma_covered_after_pop(before);
        assert forall|x: (Provider, Seq<char>)| #[trigger] self.roots().contains(x) implies self.covered(
            x,
        ) by {
            assert(before.covered(x));
        }
        assert forall|i: int, d: (Provider, Seq<char>)|
            0 <= i < self.mods@.len() && #[trigger] dependency_views(self.mods@[i]).contains(
                d,
            ) implies self.covered(d) by {
            assert(before.covered(d));
        }
        assert forall|i: int| 0 <= i < self.queue@.len() implies self.reachable(
            #[trigger] self.queue@[i]@,
        ) by {
            assert(before.reachable(before.queue@[i]@));
        }
        assert forall|i: int| 0 <= i < self.mods@.len() implies self.reachable(
            #[trigger] self.mods@[i].reference@,
        ) by {
            assert(before.reachable(before.mods@[i].reference@));
        }
        assert forall|i: int| 0 <= i < self.mods@.len() implies self.reached_before(
            #[trigger] self.mods@[i].reference@,
            i,
        ) by {
            assert(before.reached_before(before.mods@[i].reference@, i));
        }
    }

    /// Records `resolved` as the release of the pending reference, and
    /// queues each of its dependencies that is not resolved yet.
    pub fn record(&mut self, resolved: ResolvedMod)
        requires
            old(self).wf(),
            old(self).pending() == Some(resolved.reference@),
        ensures
            final(self).wf(),
            final(self).roots() == old(self).roots(),
            final(self).resolved() == old(self).resolved().push(resolved),
            final(self).pending() is None,
            final(self).waiting() == old(self).waiting() + new_dependencies(
                dependency_views(resolved),
                old(self).keys(),
            ),
    {
        let ghost deps = dependency_views(resolved);
        let ghost start = *self;
        let mut i: usize = 0;
        while i < resolved.dependencies.len()
            invariant
                start.wf(),
                deps == dependency_views(resolved),
                i <= deps.len(),
                self.mods == start.mods,
                self.head == start.head,
                self.pending == start.pending,
                self.roots == start.roots,
                self.queue@.len() == start.queue@.len() + new_dependencies(
                    deps.take(i as int),
                    start.keys(),
                ).len(),
                forall|j: int| 0 <= j < start.queue@.len() ==> self.queue@[j] == start.queue@[j],
                forall|m: int|
                    0 <= m < new_dependencies(deps.take(i as int), start.keys()).len() ==> (
                    #[trigger] self.queue@[start.queue@.len() + m])@ == new_dependencies(
                        deps.take(i as int),
                        start.keys(),
                    )[m],
            decreases deps.len() - i,
        {
            let d = &resolved.dependencies[i];
            let ghost prev = new_dependencies(deps.take(i as int), start.keys());
            assert(deps.take(i + 1).drop_last() =~= deps.take(i as int));
            assert(deps.take(i + 1).last() == d@);
            if !self.is_resolved(d) {
                assert(new_dependencies(deps.take(i + 1), start.keys()) == prev.push(d@));
                let c = d.clone();
                assert(c@ == d@);
                self.queue.push(c);
            } else {
                assert(new_dependencies(deps.take(i + 1), start.keys()) == prev);
            }
            i = i + 1;
        }
        assert(deps.take(deps.len() as int) =~= deps);
        self.pending = None;
        self.mods.push(resolved);
        proof {
            self.lemma_wf_after_record(start, resolved);
        }
    }

    /// Every element of `new_dependencies(deps, known)` comes from `deps`, and
    /// every element of `deps` is known or among them.
    proof fn lemma_new_dependencies(
        deps: Seq<(Provider, Seq<char>)>,
        known: Seq<(Provider, Seq<char>)>,
    )
        ensures
            forall|x: (Provider, Seq<char>)| #[trigger]
                new_dependencies(deps, known).contains(x) ==> deps.contains(x),
            forall|x: (Provider, Seq<char>)| #[trigger]
                deps.contains(x) ==> known.contains(x) || new_dependencies(deps, known).contains(x),
        decreases deps.len(),
    {
        if deps.len() > 0 {
            Self::lemma_new_dependencies(deps.drop_last(), known);
            let rest = new_dependencies(deps.drop_last(), known);
            let nd = new_dependencies(deps, known);
            assert forall|x: (Provider, Seq<char>)| #[trigger] nd.contains(x) implies deps.contains(x) by {
                if rest.contains(x) {
                    let k = choose|k: int| 0 <= k < deps.drop_last().len() && deps.drop_last()[k] == x;
                    assert(deps[k] == x);
                } else {
                    assert(deps[deps.len() - 1] == x);
                }
            }
            assert forall|x: (Provider, Seq<char>)| #[trigger] deps.contains(x) implies known.contains(x)
                || nd.contains(x) by {
                let k = choose|k: int| 0 <= k < deps.len() && deps[k] == x;
                if k < deps.len() - 1 {
                    assert(deps.drop_last()[k] == x);
                    assert(deps.drop_last().contains(x));
                    if rest.contains(x) {
                        let m = choose|m: int| 0 <= m < rest.len() && rest[m] == x;
                        if known.contains(deps.last()) {
                            assert(nd == rest);
                        } else {
                            assert(nd == rest.push(deps.last()));
                            assert(nd[m] == x);
                        }
                    }
                } else if !known.contains(x) {
                    assert(nd == rest.push(deps.last()));
                    assert(nd[nd.len() - 1] == x);
                }
            }
        }
    }

    proof fn lemma_wf_after_record(&self, start: Self, resolved: ResolvedMod)
        requires
            start.wf(),
            start.pending() == Some(resolved.reference@),
            self.mods@ == start.mods@.push(resolved),
            self.head == start.head,
            self.pending is None,
            self.roots == start.roots,
            self.queue@.len() == start.queue@.len() + new_dependencies(
                dependency_views(resolved),
                start.keys(),
            ).len(),
            forall|j: int| 0 <= j < start.queue@.len() ==> self.queue@[j] == start.queue@[j],
            forall|m: int|
                0 <= m < new_dependencies(dependency_views(resolved), start.keys()).len() ==> (
                #[trigger] self.queue@[start.queue@.len() + m])@ == new_dependencies(
                    dependency_views(resolved),
                    start.keys(),
                )[m],
        ensures
            self.wf(),
            self.waiting() == start.waiting() + new_dependencies(
                dependency_views(resolved),
                start.keys(),
            ),
    {
        let deps = dependency_views(resolved);
        let nd = new_dependencies(deps, start.keys());
        let sl = start.queue@.len();
        assert(self.waiting() =~= start.waiting() + nd) by {
            assert forall|k: int| 0 <= k < self.waiting().len() implies #[trigger] self.waiting()[k]
                == (start.waiting() + nd)[k] by {
                let j = self.head + k;
                if j < sl {
                    assert(self.queue@[j] == start.queue@[j]);
                } else {
                    assert(self.queue@[sl + (j - sl)]@ == nd[j - sl]);
                }
            }
        }
        let p = resolved.reference@;
        let n = start.mods@.len();
        Self::lemma_new_dependencies(deps, start.keys());
        assert(self.keys() =~= start.keys().push(p));
        assert(self.mods@[n as int] == resolved);
        // The appended queue entries are exactly `nd`.
        assert forall|j: int| start.queue@.len() <= j < self.queue@.len() implies nd.contains(
            #[trigger] self.queue@[j]@,
        ) by {
            assert(self.queue@[sl + (j - sl)]@ == nd[j - sl]);
        }
        // Anything reachable before still is.
        assert forall|x: (Provider, Seq<char>)| start.reachable(x) implies self.reachable(x) by {
            if !start.roots().contains(x) {
                let i = choose|i: int|
                    0 <= i < start.resolved().len() && #[trigger] dependency_views(
                        start.resolved()[i],
                    ).contains(x);
                assert(self.resolved()[i] == start.resolved()[i]);
            }
        }
        // Anything covered before still is.
        assert forall|x: (Provider, Seq<char>)| start.covered(x) implies self.covered(x) by {
            if start.keys().contains(x) {
                let k = choose|k: int| 0 <= k < start.keys().len() && start.keys()[k] == x;
                assert(self.keys()[k] == x);
            } else if start.pending() == Some(x) {
                assert(self.keys()[n as int] == x);
            } else {
                let k = choose|k: int| 0 <= k < start.waiting().len() && start.waiting()[k] == x;
                assert(self.waiting()[k] == x);
            }
        }
        assert forall|i: int, j: int|
            0 <= i < j < self.mods@.len() implies (#[trigger] self.mods@[i]).reference@
            != (#[trigger] self.mods@[j]).reference@ by {
            if j == n {
                assert(start.keys()[i] == self.mods@[i].reference@);
            } else {
                assert(self.mods@[i] == start.mods@[i]);
                assert(self.mods@[j] == start.mods@[j]);
            }
        }
        assert forall|r: (Provider, Seq<char>)| #[trigger] self.roots().contains(r) implies self.covered(
            r,
        ) by {
            assert(start.covered(r));
        }
        assert forall|i: int, d: (Provider, Seq<char>)|
            0 <= i < self.mods@.len() && #[trigger] dependency_views(self.mods@[i]).contains(
                d,
            ) implies self.covered(d) by {
            if i < n {
                assert(self.mods@[i] == start.mods@[i]);
                assert(start.covered(d));
            } else {
                if start.keys().contains(d) {
                    assert(start.covered(d));
                } else {
                    assert(nd.contains(d));
                    let k = choose|k: int| 0 <= k < nd.len() && nd[k] == d;
                    assert(self.waiting()[start.waiting().len() + k] == d);
                }
            }
        }
        assert forall|j: int| 0 <= j < self.queue@.len() implies self.reachable(
            #[trigger] self.queue@[j]@,
        ) by {
            if j < start.queue@.len() {
                assert(start.reachable(start.queue@[j]@));
            } else {
                assert(nd.contains(self.queue@[j]@));
                assert(deps.contains(self.queue@[j]@));
                assert(dependency_views(self.resolved()[n as int]).contains(self.queue@[j]@));
            }
        }
        assert forall|i: int| 0 <= i < self.mods@.len() implies self.reachable(
            #[trigger] self.mods@[i].reference@,
        ) by {
            if i < n {
                assert(self.mods@[i] == start.mods@[i]);
                assert(start.reachable(start.mods@[i].reference@));
            } else {
                assert(start.reachable(p));
            }
        }
        assert forall|i: int| 0 <= i < self.mods@.len() implies self.reached_before(
            #[trigger] self.mods@[i].reference@,
            i,
        ) by {
            if i < n {
                assert(self.mods@[i] == start.mods@[i]);
                assert(start.reached_before(start.mods@[i].reference@, i));
                if !start.roots().contains(start.mods@[i].reference@) {
                    let j = choose|j: int|
                        0 <= j < i && #[trigger] dependency_views(start.resolved()[j]).contains(
                            start.mods@[i].reference@,
                        );
                    assert(self.resolved()[j] == start.resolved()[j]);
                }
            } else {
                assert(start.reachable(p));
                if !start.roots().contains(p) {
                    let j = choose|j: int|
                        0 <= j < start.resolved().len() && #[trigger] dependency_views(
                            start.resolved()[j],
                        ).contains(p);
                    assert(self.resolved()[j] == start.resolved()[j]);
                }
            }
        }
    }

    /// Every resolved reference lies in any set closed under dependencies:
    /// it is a root, or a dependency of a mod resolved before it.
    proof fn lemma_in_closed_set(&self, s: Set<(Provider, Seq<char>)>, i: int)
        requires
            self.wf(),
            self.closed_under_dependencies(s),
            0 <= i < self.resolved().len(),
        ensures
            s.contains(self.resolved()[i].reference@),
        decreases i,
    {
        let r = self.resolved()[i].reference@;
        assert(self.reached_before(self.mods@[i].reference@, i));
        if !self.roots().contains(r) {
            let j = choose|j: int| 0 <= j < i && #[trigger] dependency_views(self.resolved()[j]).contains(r);
            self.lemma_in_closed_set(s, j);
        }
    }

    /// The resolved mods, in the order they were resolved.
    pub fn finish(self) -> (res: Vec<ResolvedMod>)
        ensures
            res@ == self.resolved(),
    {
        self.mods
    }

    /// Once resolution is done, the resolved mods are the least closure of
    /// the roots under required dependencies: every root is resolved, every
    /// dependency of a resolved mod is resolved, no reference is resolved
    /// twice (two mods requiring the same dependency share one release), and
    /// every resolved reference lies in each set that holds the roots and the
    /// dependencies of its own members (so nothing the roots do not lead to
    /// is resolved).
    pub proof fn lemma_done_is_closure(&self)
        requires
            self.wf(),
            self.is_done(),
        ensures
            forall|i: int, j: int|
                0 <= i < j < self.resolved().len() ==> (#[trigger] self.resolved()[i]).reference@
                    != (#[trigger] self.resolved()[j]).reference@,
            forall|r: (Provider, Seq<char>)| #[trigger]
                self.roots().contains(r) ==> self.keys().contains(r),
            forall|i: int, d: (Provider, Seq<char>)|
                0 <= i < self.resolved().len() && #[trigger] dependency_views(
                    self.resolved()[i],
                ).contains(d) ==> self.keys().contains(d),
            forall|s: Set<(Provider, Seq<char>)>, i: int|
                self.closed_under_dependencies(s) && 0 <= i < self.resolved().len() ==> #[trigger] s.contains(
                    self.resolved()[i].reference@,
                ),
    {
        assert(self.waiting().len() == 0);
        assert forall|s: Set<(Provider, Seq<char>)>, i: int|
            self.closed_under_dependencies(s) && 0 <= i < self.resolved().len() implies #[trigger] s.contains(
                self.resolved()[i].reference@,
            ) by {
            self.lemma_in_closed_set(s, i);
        }
        assert forall|r: (Provider, Seq<char>)| #[trigger] self.roots().contains(r) implies self.keys().contains(
            r,
        ) by {
            assert(self.covered(r));
        }
        assert forall|i: int, d: (Provider, Seq<char>)|
            0 <= i < self.resolved().len() && #[trigger] dependency_views(
                self.resolved()[i],
            ).contains(d) implies self.keys().contains(d) by {
            assert(self.covered(d));
        }
    }
}

} // verus!
