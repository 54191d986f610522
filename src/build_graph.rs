//! Build plans: trees of compilation units in which a node runs before its children.
use vstd::prelude::*;

use crate::build_rules::{CompilationUnit, UnitV};

verus! {

/// Mathematical form of a `BuildPlan`.
pub enum PlanV {
    Leaf(UnitV),
    Node(UnitV, Seq<PlanV>),
}

impl PlanV {
    pub open spec fn unit(self) -> UnitV {
        match self {
            PlanV::Leaf(u) => u,
            PlanV::Node(u, _) => u,
        }
    }

    pub open spec fn children(self) -> Seq<PlanV> {
        match self {
            PlanV::Leaf(_) => seq![],
            PlanV::Node(_, ch) => ch,
        }
    }
}

/// A tree of compilation units: each node's unit is a precondition of its children.
#[derive(Debug)]
pub enum BuildPlan {
    Node(CompilationUnit, Vec<BuildPlan>),
    Leaf(CompilationUnit),
}

/// The views of a sequence of plans.
pub open spec fn plans_view(ps: Seq<BuildPlan>) -> Seq<PlanV> {
    Seq::new(ps.len(), |i: int| ps[i]@)
}

/// The views of a sequence of units.
pub open spec fn units_view(us: Seq<CompilationUnit>) -> Seq<UnitV> {
    Seq::new(us.len(), |i: int| us[i]@)
}

impl BuildPlan {
    pub open spec fn view(&self) -> PlanV
        decreases self,
    {
        match self {
            BuildPlan::Leaf(u) => PlanV::Leaf(u@),
            BuildPlan::Node(u, ch) => PlanV::Node(
                u@,
                Seq::new(
                    ch@.len(),
                    |i: int|
                        if 0 <= i < ch@.len() {
                            ch@[i].view()
                        } else {
                            PlanV::Leaf(u@)
                        },
                ),
            ),
        }
    }

    /// A plan of the single unit `cunit`.
    pub fn start_with(cunit: CompilationUnit) -> (r: BuildPlan)
        ensures
            r@ == PlanV::Leaf(cunit@),
    {
        BuildPlan::Leaf(cunit)
    }

    /// This plan's unit with `tasks` as its children, in place of any it had.
    pub fn and_then(self, tasks: Vec<BuildPlan>) -> (r: BuildPlan)
        ensures
            r@ == PlanV::Node(self@.unit(), plans_view(tasks@)),
    {
        let r = match self {
            BuildPlan::Leaf(cunit) => BuildPlan::Node(cunit, tasks),
            BuildPlan::Node(cunit, _) => BuildPlan::Node(cunit, tasks),
        };
        assert(r@->Node_1 =~= plans_view(tasks@));
        r
    }

    /// The children of this plan (none for a leaf).
    pub fn deps(self) -> (r: Vec<BuildPlan>)
        ensures
            plans_view(r@) == self@.children(),
    {
        match self {
            BuildPlan::Leaf(_) => {
                let r = Vec::new();
                assert(plans_view(r@) =~= Seq::<PlanV>::empty());
                r
            },
            BuildPlan::Node(_, deps) => {
                assert(plans_view(deps@) =~= self@.children());
                deps
            },
        }
    }
}

/// The units of `p` in preorder: a node's unit, then each child's preorder in turn.
pub open spec fn preorder(p: PlanV) -> Seq<UnitV>
    decreases p,
{
    match p {
        PlanV::Leaf(u) => seq![u],
        PlanV::Node(u, ch) => seq![u] + preorder_all(ch),
    }
}

/// The preorders of `ps`, one after another.
pub open spec fn preorder_all(ps: Seq<PlanV>) -> Seq<UnitV>
    decreases ps,
{
    if ps.len() == 0 {
        seq![]
    } else {
        preorder_all(ps.subrange(0, ps.len() - 1)) + preorder(ps[ps.len() - 1])
    }
}

impl BuildPlan {
    /// The units of this plan in execution order: a node's unit before those of its
    /// children, children in order.
    pub fn breadth_first_iter(&self) -> (r: Vec<CompilationUnit>)
        ensures
            units_view(r@) == preorder(self@),
        decreases self,
    {
        match self {
            BuildPlan::Leaf(u) => {
                let r = vec![u.duplicate()];
                assert(units_view(r@) =~= seq![u@]);
                r
            },
            BuildPlan::Node(u, ch) => {
                let mut out = vec![u.duplicate()];
                let ghost chv = plans_view(ch@);
                assert(units_view(out@) =~= seq![u@] + preorder_all(chv.subrange(0, 0)));
                let mut i: usize = 0;
                proof {
                    assert forall|k: int| 0 <= k < ch@.len() implies decreases_to!(*self => #[trigger] ch@[k]) by {
                        assert(decreases_to!(*self => self->Node_1));
                        assert(decreases_to!(self->Node_1 => self->Node_1@[k]));
                    }
                }
                while i < ch.len()
                    invariant
                        forall|k: int| 0 <= k < ch@.len() ==> decreases_to!(*self => #[trigger] ch@[k]),
                        i <= ch@.len(),
                        chv == plans_view(ch@),
                        units_view(out@) == seq![u@] + preorder_all(chv.subrange(0, i as int)),
                    decreases ch@.len() - i,
                {
                    let mut sub = ch[i].breadth_first_iter();
                    let ghost before = out@;
                    out.append(&mut sub);
                    proof {
                        let s = chv.subrange(0, i + 1);
                        assert(s.subrange(0, s.len() - 1) =~= chv.subrange(0, i as int));
                        assert(units_view(out@) =~= units_view(before) + units_view(
                            out@.subrange(before.len() as int, out@.len() as int),
                        ));
                    }
                    i = i + 1;
                }
                assert(chv.subrange(0, ch@.len() as int) =~= chv);
                assert(self@->Node_1 =~= chv);
                out
            },
        }
    }
}

/// `r` is `p` transformed by `f` with the cascading rule: a unit that `f` leaves equal
/// keeps its children untouched; the children of a unit that `f` changes are transformed
/// in turn.
pub open spec fn mapped_by<F: Fn(CompilationUnit) -> CompilationUnit>(
    f: F,
    p: BuildPlan,
    r: BuildPlan,
) -> bool
    decreases p,
{
    match p {
        BuildPlan::Leaf(u) => match r {
            BuildPlan::Leaf(v) => f.ensures((u,), v),
            BuildPlan::Node(..) => false,
        },
        BuildPlan::Node(u, ch) => match r {
            BuildPlan::Node(v, rch) => {
                &&& f.ensures((u,), v)
                &&& if v@ == u@ {
                    rch == ch
                } else {
                    &&& rch@.len() == ch@.len()
                    &&& forall|i: int|
                        0 <= i < ch@.len() ==> mapped_by(f, #[trigger] ch@[i], rch@[i])
                }
            },
            BuildPlan::Leaf(_) => false,
        },
    }
}

impl BuildPlan {
    /// Applies `f` to this plan's units from the root down; the children of a unit that
    /// `f` leaves equal are kept as they are.
    pub fn map<F: Fn(CompilationUnit) -> CompilationUnit>(self, f: &F) -> (r: BuildPlan)
        requires
            forall|u: CompilationUnit| #[trigger] f.requires((u,)),
        ensures
            mapped_by(*f, self, r),
        decreases self,
    {
        match self {
            BuildPlan::Node(cunit, deps) => {
                let new_cunit = f(cunit.duplicate());
                if new_cunit.same_as(&cunit) {
                    BuildPlan::Node(new_cunit, deps)
                } else {
                    let ghost orig = deps;
                    proof {
                        assert forall|k: int| 0 <= k < orig@.len() implies decreases_to!(self => #[trigger] orig@[k]) by {
                            assert(decreases_to!(self => self->Node_1));
                            assert(decreases_to!(self->Node_1 => self->Node_1@[k]));
                        }
                    }
                    let mut rest = deps;
                    let mut out: Vec<BuildPlan> = Vec::new();
                    let n = rest.len();
                    while out.len() < n
                        invariant
                            forall|k: int| 0 <= k < orig@.len() ==> decreases_to!(self => #[trigger] orig@[k]),
                            forall|u: CompilationUnit| #[trigger] f.requires((u,)),
                            n == orig@.len(),
                            out@.len() <= n,
                            rest@ == orig@.subrange(out@.len() as int, n as int),
                            forall|k: int| 0 <= k < out@.len() ==> mapped_by(*f, #[trigger] orig@[k], out@[k]),
                        decreases n - out@.len(),
                    {
                        let child = rest.remove(0);
                        assert(child == orig@[out@.len() as int]);
                        let mapped = child.map(f);
                        out.push(mapped);
                    }
                    BuildPlan::Node(new_cunit, out)
                }
            },
            BuildPlan::Leaf(cunit) => BuildPlan::Leaf(f(cunit)),
        }
    }
}

/// The units of `p` that executing it performs, in order: its preorder without the
/// cache hits.
pub open spec fn pending(p: PlanV) -> Seq<UnitV>
    decreases p,
{
    match p {
        PlanV::Leaf(u) => performed(u),
        PlanV::Node(u, ch) => performed(u) + pending_all(ch),
    }
}

/// `u` alone when executing it does work; nothing for a cache hit.
pub open spec fn performed(u: UnitV) -> Seq<UnitV> {
    if u is CacheHit {
        seq![]
    } else {
        seq![u]
    }
}

/// The pending units of `ps`, one plan after another.
pub open spec fn pending_all(ps: Seq<PlanV>) -> Seq<UnitV>
    decreases ps,
{
    if ps.len() == 0 {
        seq![]
    } else {
        pending_all(ps.subrange(0, ps.len() - 1)) + pending(ps[ps.len() - 1])
    }
}

impl BuildPlan {
    /// The units that executing this plan performs, in execution order: its preorder
    /// with the cache hits left out.
    pub fn pending_units(&self) -> (r: Vec<CompilationUnit>)
        ensures
            units_view(r@) == pending(self@),
        decreases self,
    {
        let (u, empty) = match self {
            BuildPlan::Leaf(u) => (u, true),
            BuildPlan::Node(u, _) => (u, false),
        };
        let mut out: Vec<CompilationUnit> = Vec::new();
        if !u.is_cache_hit() {
            out.push(u.duplicate());
        }
        assert(units_view(out@) =~= performed(u@));
        match self {
            BuildPlan::Leaf(_) => out,
            BuildPlan::Node(_, ch) => {
                let ghost chv = plans_view(ch@);
                assert(performed(u@) + pending_all(chv.subrange(0, 0)) =~= performed(u@));
                let mut i: usize = 0;
                proof {
                    assert forall|k: int| 0 <= k < ch@.len() implies decreases_to!(*self => #[trigger] ch@[k]) by {
                        assert(decreases_to!(*self => self->Node_1));
                        assert(decreases_to!(self->Node_1 => self->Node_1@[k]));
                    }
                }
                while i < ch.len()
                    invariant
                        forall|k: int| 0 <= k < ch@.len() ==> decreases_to!(*self => #[trigger] ch@[k]),
                        i <= ch@.len(),
                        chv == plans_view(ch@),
                        units_view(out@) == performed(u@) + pending_all(chv.subrange(0, i as int)),
                    decreases ch@.len() - i,
                {
                    let mut sub = ch[i].pending_units();
                    let ghost before = out@;
                    out.append(&mut sub);
                    proof {
                        let s = chv.subrange(0, i + 1);
                        assert(s.subrange(0, s.len() - 1) =~= chv.subrange(0, i as int));
                        assert(units_view(out@) =~= units_view(before) + units_view(
                            out@.subrange(before.len() as int, out@.len() as int),
                        ));
                    }
                    i = i + 1;
                }
                assert(chv.subrange(0, ch@.len() as int) =~= chv);
                assert(self@->Node_1 =~= chv);
                out
            },
        }
    }
}

proof fn lemma_preorder_all_concat(a: Seq<PlanV>, b: Seq<PlanV>)
    ensures
        preorder_all(a + b) == preorder_all(a) + preorder_all(b),
    decreases b.len(),
{
    if b.len() == 0 {
        assert(a + b =~= a);
        assert(preorder_all(b) =~= Seq::<UnitV>::empty());
        assert(preorder_all(a) + preorder_all(b) =~= preorder_all(a));
    } else {
        let b0 = b.subrange(0, b.len() - 1);
        lemma_preorder_all_concat(a, b0);
        assert((a + b).subrange(0, (a + b).len() - 1) =~= a + b0);
        assert((a + b)[(a + b).len() - 1] == b[b.len() - 1]);
        assert(preorder_all(a + b) =~= preorder_all(a) + preorder_all(b));
    }
}

/// Where the preorder of the `i`-th child of `p` begins within the preorder of `p`.
pub open spec fn child_offset(p: PlanV, i: int) -> int {
    1 + preorder_all(p.children().subrange(0, i)).len() as int
}

/// Execution order: the preorder of a plan starts with its own unit, and the preorder of
/// each child stands, whole, at a later position; so a node's unit runs strictly before
/// every unit beneath it.
pub proof fn lemma_parent_before_descendants(p: PlanV, i: int)
    requires
        0 <= i < p.children().len(),
    ensures
        preorder(p)[0] == p.unit(),
        child_offset(p, i) >= 1,
        child_offset(p, i) + preorder(p.children()[i]).len() <= preorder(p).len(),
        preorder(p).subrange(
            child_offset(p, i),
            child_offset(p, i) + preorder(p.children()[i]).len(),
        ) == preorder(p.children()[i]),
{
    let ch = p.children();
    let a = ch.subrange(0, i);
    let c = ch.subrange(i, i + 1);
    let b = ch.subrange(i + 1, ch.len() as int);
    assert(ch =~= a + c + b);
    lemma_preorder_all_concat(a + c, b);
    lemma_preorder_all_concat(a, c);
    assert(c.subrange(0, c.len() - 1) =~= Seq::<PlanV>::empty());
    assert(preorder_all(Seq::<PlanV>::empty()) =~= Seq::<UnitV>::empty());
    assert(c[c.len() - 1] == ch[i]);
    assert(preorder_all(c) =~= preorder(ch[i]));
    let pa = preorder_all(a);
    let pc = preorder(ch[i]);
    let pb = preorder_all(b);
    assert(preorder(p) =~= seq![p.unit()] + pa + pc + pb);
    assert(preorder(p).subrange(1 + pa.len() as int, 1 + pa.len() + pc.len() as int) =~= pc);
}

} // verus!
