//! Staleness diffing of build plans against a snapshot of file times, and the order in
//! which a plan's units run.
use vstd::prelude::*;

use crate::build_graph::{mapped_by, pending, pending_all, BuildPlan, PlanV};
use crate::build_rules::{CompilationUnit, UnitV};

verus! {

/// The modification time of one existing path, in nanoseconds after the Unix epoch.
pub struct Stamp {
    pub path: String,
    pub modified: u128,
}

/// The modification times of the paths that exist; a path not listed does not exist.
pub struct FsSnapshot {
    stamps: Vec<Stamp>,
}

/// The entry for `p` in `s`: the first that names it.
pub open spec fn stamp_of(s: Seq<(Seq<char>, u128)>, p: Seq<char>) -> Option<u128> {
    if exists|k: int| 0 <= k < s.len() && s[k].0 == p {
        let k = choose|k: int|
            0 <= k < s.len() && s[k].0 == p && forall|j: int| 0 <= j < k ==> s[j].0 != p;
        Some(s[k].1)
    } else {
        None
    }
}

/// The modification time of `p`; a missing path counts as the epoch.
pub open spec fn mtime(s: Seq<(Seq<char>, u128)>, p: Seq<char>) -> u128 {
    match stamp_of(s, p) {
        Some(t) => t,
        None => 0,
    }
}

impl FsSnapshot {
    pub closed spec fn view(&self) -> Seq<(Seq<char>, u128)> {
        Seq::new(self.stamps@.len(), |i: int| (self.stamps@[i].path@, self.stamps@[i].modified))
    }

    /// A snapshot in which no path exists.
    pub fn new() -> (r: FsSnapshot)
        ensures
            r@ == Seq::<(Seq<char>, u128)>::empty(),
    {
        let r = FsSnapshot { stamps: Vec::new() };
        assert(r@ =~= Seq::<(Seq<char>, u128)>::empty());
        r
    }

    /// Records that `path` exists with the given modification time; an earlier record
    /// of the same path takes precedence.
    pub fn record(&mut self, path: String, modified: u128)
        ensures
            final(self)@ == old(self)@.push((path@, modified)),
    {
        self.stamps.push(Stamp { path, modified });
        assert(self@ =~= old(self)@.push((path@, modified)));
    }

    fn find(&self, p: &String) -> (r: Option<u128>)
        ensures
            r == stamp_of(self@, p@),
    {
        let mut i: usize = 0;
        while i < self.stamps.len()
            invariant
                i <= self@.len(),
                self@.len() == self.stamps@.len(),
                forall|j: int| 0 <= j < i ==> self@[j].0 != p@,
            decreases self.stamps@.len() - i,
        {
            if self.stamps[i].path == *p {
                let ghost k = i as int;
                assert(self@[k].0 == p@);
                assert(0 <= k < self@.len() && self@[k].0 == p@ && forall|j: int| 0 <= j < k ==> self@[j].0 != p@);
                return Some(self.stamps[i].modified);
            }
            i = i + 1;
        }
        None
    }

    /// The modification time of `p`, the epoch when it does not exist.
    pub fn modified(&self, p: &String) -> (r: u128)
        ensures
            r == mtime(self@, p@),
    {
        match self.find(p) {
            Some(t) => t,
            None => 0,
        }
    }

    /// Whether `p` exists.
    pub fn contains_path(&self, p: &String) -> (r: bool)
        ensures
            r == stamp_of(self@, p@) is Some,
    {
        self.find(p).is_some()
    }
}

/// Whether the diff wraps `u` into a cache hit under the times `s`: a directory that
/// exists; a copy or compile whose output is strictly newer than its input; a template
/// whose output is no older than its input and its template. A cache hit is never
/// wrapped again.
pub open spec fn judged_fresh(u: UnitV, s: Seq<(Seq<char>, u128)>) -> bool {
    match u {
        UnitV::CreateDir { path } => stamp_of(s, path) is Some,
        UnitV::CacheHit { .. } => false,
        UnitV::Copy { input, output } => mtime(s, input) < mtime(s, output),
        UnitV::Compile { input, output } => mtime(s, input) < mtime(s, output),
        UnitV::Template { input, output, template } => {
            !(mtime(s, input) > mtime(s, output)) && !(mtime(s, template) > mtime(s, output))
        },
    }
}

/// `u` as the diff leaves it: wrapped into a cache hit when judged fresh, else unchanged.
pub open spec fn judged(u: UnitV, s: Seq<(Seq<char>, u128)>) -> UnitV {
    if judged_fresh(u, s) {
        UnitV::CacheHit { unit: Box::new(u) }
    } else {
        u
    }
}

/// The plan `p` after the staleness diff: a node judged fresh becomes a cache hit and
/// its children are diffed in turn; any other node keeps its whole subtree unchanged.
pub open spec fn diffed(p: PlanV, s: Seq<(Seq<char>, u128)>) -> PlanV
    decreases p,
{
    match p {
        PlanV::Leaf(u) => PlanV::Leaf(judged(u, s)),
        PlanV::Node(u, ch) => if judged_fresh(u, s) {
            PlanV::Node(
                judged(u, s),
                Seq::new(
                    ch.len(),
                    |i: int|
                        if 0 <= i < ch.len() {
                            diffed(ch[i], s)
                        } else {
                            PlanV::Leaf(u)
                        },
                ),
            )
        } else {
            PlanV::Node(u, ch)
        },
    }
}

/// Whether `u` is judged fresh under `snapshot`.
pub fn is_fresh(snapshot: &FsSnapshot, u: &CompilationUnit) -> (r: bool)
    ensures
        r == judged_fresh(u@, snapshot@),
{
    match u {
        CompilationUnit::CreateDir { path } => snapshot.contains_path(path),
        CompilationUnit::CacheHit { .. } => false,
        CompilationUnit::Copy { input, output } => snapshot.modified(input) < snapshot.modified(output),
        CompilationUnit::Compile { input, output } => {
            snapshot.modified(input) < snapshot.modified(output)
        },
        CompilationUnit::Template { input, output, template } => {
            let out = snapshot.modified(output);
            !(snapshot.modified(input) > out) && !(snapshot.modified(template) > out)
        },
    }
}

/// `u` wrapped into a cache hit when it is judged fresh under `snapshot`.
pub fn judge(snapshot: &FsSnapshot, u: CompilationUnit) -> (r: CompilationUnit)
    ensures
        r@ == judged(u@, snapshot@),
{
    if is_fresh(snapshot, &u) {
        CompilationUnit::CacheHit { unit: Box::new(u) }
    } else {
        u
    }
}

proof fn lemma_mapped_is_diffed<F: Fn(CompilationUnit) -> CompilationUnit>(
    f: F,
    p: BuildPlan,
    r: BuildPlan,
    s: Seq<(Seq<char>, u128)>,
)
    requires
        mapped_by(f, p, r),
        forall|u: CompilationUnit, v: CompilationUnit| #[trigger] f.ensures((u,), v) ==> v@ == judged(u@, s),
    ensures
        r@ == diffed(p@, s),
    decreases p,
{
    match p {
        BuildPlan::Leaf(u) => {},
        BuildPlan::Node(u, ch) => {
            let v = r->Node_0;
            let rch = r->Node_1;
            assert(f.ensures((u,), v));
            if v@ == u@ {
                assert(r@->Node_1 =~= p@->Node_1);
            } else {
                assert forall|i: int| 0 <= i < ch@.len() implies #[trigger] rch@[i]@ == diffed(ch@[i]@, s) by {
                    assert(decreases_to!(p => p->Node_1));
                    assert(decreases_to!(p->Node_1 => p->Node_1@[i]));
                    lemma_mapped_is_diffed(f, ch@[i], rch@[i], s);
                }
                assert(judged_fresh(u@, s));
                assert(p@->Node_1.len() == ch@.len());
                assert forall|i: int| 0 <= i < ch@.len() implies #[trigger] p@->Node_1[i] == ch@[i]@ by {}
                let d = diffed(p@, s);
                assert(d->Node_1.len() == ch@.len());
                assert forall|i: int| 0 <= i < ch@.len() implies #[trigger] d->Node_1[i] == r@->Node_1[i] by {
                    assert(d->Node_1[i] == diffed(p@->Node_1[i], s));
                    assert(r@->Node_1[i] == rch@[i]@);
                }
                assert(r@->Node_1 =~= diffed(p@, s)->Node_1);
            }
        },
    }
}

impl BuildPlan {
    /// This plan with every unit that is up to date under `snapshot` marked as a cache
    /// hit, by the cascading rule: the children of a stale unit are left as they are.
    pub fn compute_diff(self, snapshot: &FsSnapshot) -> (r: BuildPlan)
        ensures
            r@ == diffed(self@, snapshot@),
    {
        let f = |u: CompilationUnit| -> (v: CompilationUnit)
            ensures
                v@ == judged(u@, snapshot@),
            { judge(snapshot, u) };
        let ghost orig = self;
        let r = self.map(&f);
        proof {
            lemma_mapped_is_diffed(f, orig, r, snapshot@);
        }
        r
    }
}

/// Every unit of `p` is judged fresh under `s`.
pub open spec fn all_fresh(p: PlanV, s: Seq<(Seq<char>, u128)>) -> bool
    decreases p,
{
    match p {
        PlanV::Leaf(u) => judged_fresh(u, s),
        PlanV::Node(u, ch) => judged_fresh(u, s) && forall|i: int|
            0 <= i < ch.len() ==> all_fresh(#[trigger] ch[i], s),
    }
}

/// Every unit of `p` is a cache hit.
pub open spec fn all_cached(p: PlanV) -> bool
    decreases p,
{
    match p {
        PlanV::Leaf(u) => u is CacheHit,
        PlanV::Node(u, ch) => u is CacheHit && forall|i: int|
            0 <= i < ch.len() ==> all_cached(#[trigger] ch[i]),
    }
}

/// Cascading invalidation: when the root unit of a plan is judged stale, the diff leaves
/// the plan exactly as it was, so no descendant becomes a cache hit whatever its own times.
pub proof fn lemma_stale_root_keeps_subtree(p: PlanV, s: Seq<(Seq<char>, u128)>)
    requires
        !judged_fresh(p.unit(), s),
    ensures
        diffed(p, s) == p,
{
}

/// Tie policy: with equal input and output times a copy or a compile is stale, while a
/// template whose template file is no newer than its output is fresh.
pub proof fn lemma_equal_times_tie_policy(
    s: Seq<(Seq<char>, u128)>,
    input: Seq<char>,
    output: Seq<char>,
    template: Seq<char>,
)
    requires
        mtime(s, input) == mtime(s, output),
        mtime(s, template) <= mtime(s, output),
    ensures
        !judged_fresh(UnitV::Copy { input, output }, s),
        !judged_fresh(UnitV::Compile { input, output }, s),
        judged_fresh(UnitV::Template { input, output, template }, s),
{
}

proof fn lemma_all_fresh_diffs_to_cached(p: PlanV, s: Seq<(Seq<char>, u128)>)
    requires
        all_fresh(p, s),
    ensures
        all_cached(diffed(p, s)),
    decreases p,
{
    match p {
        PlanV::Leaf(u) => {},
        PlanV::Node(u, ch) => {
            let d = diffed(p, s);
            assert forall|i: int| 0 <= i < d->Node_1.len() implies all_cached(#[trigger] d->Node_1[i]) by {
                assert(all_fresh(ch[i], s));
                lemma_all_fresh_diffs_to_cached(ch[i], s);
            }
        },
    }
}

proof fn lemma_cached_nothing_pending(p: PlanV)
    requires
        all_cached(p),
    ensures
        pending(p) == Seq::<UnitV>::empty(),
    decreases p, 1nat,
{
    match p {
        PlanV::Leaf(u) => {},
        PlanV::Node(u, ch) => {
            lemma_cached_nothing_pending_all(ch);
            assert(pending(p) =~= Seq::<UnitV>::empty());
        },
    }
}

proof fn lemma_cached_nothing_pending_all(ps: Seq<PlanV>)
    requires
        forall|i: int| 0 <= i < ps.len() ==> all_cached(#[trigger] ps[i]),
    ensures
        pending_all(ps) == Seq::<UnitV>::empty(),
    decreases ps, 0nat,
{
    if ps.len() > 0 {
        let init = ps.subrange(0, ps.len() - 1);
        assert forall|i: int| 0 <= i < init.len() implies all_cached(#[trigger] init[i]) by {
            assert(init[i] == ps[i]);
        }
        lemma_cached_nothing_pending_all(init);
        lemma_cached_nothing_pending(ps[ps.len() - 1]);
        assert(pending_all(ps) =~= Seq::<UnitV>::empty());
    }
}

/// Convergence: once every unit of a plan is up to date, as after a successful run with
/// no change since, the diff turns every unit into a cache hit and nothing is left to run.
pub proof fn lemma_converged_plan_runs_nothing(p: PlanV, s: Seq<(Seq<char>, u128)>)
    requires
        all_fresh(p, s),
    ensures
        all_cached(diffed(p, s)),
        pending(diffed(p, s)) == Seq::<UnitV>::empty(),
{
    lemma_all_fresh_diffs_to_cached(p, s);
    lemma_cached_nothing_pending(diffed(p, s));
}

} // verus!
