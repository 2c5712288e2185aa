//! The directed dissemination-flow algebra.
//!
//! A [`Flow`] enumerates, for each location, the locations its data is sent
//! to.  Flows compose algebraically: [`Combined`] is union, [`Blocked`] is
//! one-step set difference at the queried location, and [`Transitive`] is the
//! reflexive-free transitive closure, computed by a cycle-safe breadth-first
//! walk that expands each location at most once.

use vstd::prelude::*;

use crate::{lemma_no_dup_u64_len, Location};

verus! {

/// A directed dissemination relation over locations: `forward` enumerates
/// where the data at a location is sent.  The sequence an implementation
/// returns is pinned exactly by its `succs` specification, so every
/// composition of flows is deterministic.
pub trait Flow: Sized {
    /// The exact successor sequence that `forward` returns at `loc`.
    spec fn succs(&self, loc: Location) -> Seq<Location>;

    /// The locations to which the data at `loc` is sent.
    fn forward(&self, loc: Location) -> (r: Vec<Location>)
        ensures
            r@ == self.succs(loc),
    ;

    /// Takes the transitive closure of this flow.
    fn trans(self) -> (r: Transitive<Self>)
        ensures
            r == (Transitive { flow: self }),
    {
        Transitive::new(self)
    }
}

/// Whether consecutive elements of `p` are joined by edges of `f`.
pub open spec fn is_path<F: Flow>(f: &F, p: Seq<Location>) -> bool {
    forall|i: int| #![trigger p[i]] 0 <= i < p.len() - 1 ==> f.succs(p[i]).contains(p[i + 1])
}

/// Whether `to` is reachable from `from` in one or more steps of `f`.
/// `from` reaches itself only through a genuine cycle.
pub open spec fn reaches<F: Flow>(f: &F, from: Location, to: Location) -> bool {
    exists|p: Seq<Location>|
        #![auto]
        p.len() >= 2 && p[0] == from && p.last() == to && is_path(f, p)
}

/// Every location reachable from `from` in one or more steps of `f`.
pub open spec fn reach_set<F: Flow>(f: &F, from: Location) -> Set<Location> {
    Set::new(|to: Location| reaches(f, from, to))
}

/// A direct edge witnesses reachability.
pub proof fn lemma_reach_one<F: Flow>(f: &F, x: Location, y: Location)
    requires
        f.succs(x).contains(y),
    ensures
        reaches(f, x, y),
{
    let p = seq![x, y];
    assert(p.len() == 2 && p[0] == x && p.last() == y);
    assert forall|i: int| #![trigger p[i]] 0 <= i < p.len() - 1 implies f.succs(p[i]).contains(
        p[i + 1],
    ) by {
        assert(p[0] == x && p[1] == y);
    }
    assert(is_path(f, p));
}

/// Reachability extends along a direct edge.
pub proof fn lemma_reach_extend<F: Flow>(f: &F, a: Location, b: Location, c: Location)
    requires
        reaches(f, a, b),
        f.succs(b).contains(c),
    ensures
        reaches(f, a, c),
{
    let p = choose|p: Seq<Location>|
        #![auto]
        p.len() >= 2 && p[0] == a && p.last() == b && is_path(f, p);
    let q = p.push(c);
    assert(q.len() >= 2 && q[0] == a && q.last() == c);
    assert forall|i: int| #![trigger q[i]] 0 <= i < q.len() - 1 implies f.succs(q[i]).contains(
        q[i + 1],
    ) by {
        if i < p.len() - 1 {
            assert(q[i] == p[i] && q[i + 1] == p[i + 1]);
            assert(f.succs(p[i]).contains(p[i + 1]));
        } else {
            assert(q[i] == p.last() && q[i + 1] == c);
        }
    }
    assert(is_path(f, q));
}

/// Reachability is transitive.
pub proof fn lemma_reach_trans<F: Flow>(f: &F, a: Location, b: Location, c: Location)
    requires
        reaches(f, a, b),
        reaches(f, b, c),
    ensures
        reaches(f, a, c),
{
    let p1 = choose|p: Seq<Location>|
        #![auto]
        p.len() >= 2 && p[0] == a && p.last() == b && is_path(f, p);
    let p2 = choose|p: Seq<Location>|
        #![auto]
        p.len() >= 2 && p[0] == b && p.last() == c && is_path(f, p);
    let q = p1 + p2.drop_first();
    assert(q.len() == p1.len() + p2.len() - 1);
    assert(q[0] == p1[0]);
    assert(q.last() == p2.last());
    assert forall|i: int| #![trigger q[i]] 0 <= i < q.len() - 1 implies f.succs(q[i]).contains(
        q[i + 1],
    ) by {
        if i < p1.len() - 1 {
            assert(q[i] == p1[i] && q[i + 1] == p1[i + 1]);
            assert(f.succs(p1[i]).contains(p1[i + 1]));
        } else if i == p1.len() - 1 {
            assert(q[i] == p1.last());
            assert(q[i + 1] == p2.drop_first()[0]);
            assert(p2.drop_first()[0] == p2[1]);
            assert(f.succs(p2[0]).contains(p2[1]));
        } else {
            let j = i - p1.len();
            assert(q[i] == p2.drop_first()[j]);
            assert(q[i + 1] == p2.drop_first()[j + 1]);
            assert(p2.drop_first()[j] == p2[j + 1]);
            assert(p2.drop_first()[j + 1] == p2[j + 2]);
            assert(f.succs(p2[j + 1]).contains(p2[j + 2]));
        }
    }
    assert(is_path(f, q));
}

/// A set that contains the successors of `loc` and is closed under
/// successors contains everything reachable from `loc`.
proof fn lemma_closed_covers_path<F: Flow>(f: &F, loc: Location, s: Set<Location>, p: Seq<Location>)
    requires
        f.succs(loc).to_set().subset_of(s),
        forall|y: Location| s.contains(y) ==> #[trigger] f.succs(y).to_set().subset_of(s),
        is_path(f, p),
        p.len() >= 2,
        p[0] == loc,
    ensures
        s.contains(p.last()),
    decreases p.len(),
{
    assert(f.succs(p[0]).contains(p[1]));
    assert(f.succs(loc).to_set().contains(p[1]));
    assert(s.contains(p[1]));
    if p.len() > 2 {
        let q = p.drop_first();
        assert(q[0] == p[1]);
        assert(q.last() == p.last());
        assert forall|i: int| #![trigger q[i]] 0 <= i < q.len() - 1 implies f.succs(q[i]).contains(
            q[i + 1],
        ) by {
            assert(q[i] == p[i + 1]);
            assert(q[i + 1] == p[i + 2]);
            assert(f.succs(p[i + 1]).contains(p[i + 2]));
        }
        assert(is_path(f, q));
        assert(f.succs(p[1]).to_set().subset_of(s));
        lemma_closed_covers_path(f, p[1], s, q);
    }
}

/// The breadth-first enumeration of the locations reachable from an origin,
/// given the successors of the origin as the initial worklist.  `out` is both
/// the output and the seen set; its tail from `head` on is the queue of
/// locations not yet expanded; `pending` is the successor sequence of the
/// location being expanded.  Each newly seen location is appended once; an
/// already-seen one is skipped, which keeps the walk finite on cyclic graphs.
pub open spec fn bfs<F: Flow>(
    f: &F,
    pending: Seq<Location>,
    out: Seq<Location>,
    head: int,
) -> Seq<Location>
    decreases 0x1_0000_0000_0000_0000 - out.len(), out.len() - head, pending.len(),
        when out.no_duplicates() && 0 <= head <= out.len()
        via bfs_decreases::<F>
{
    if pending.len() > 0 {
        let x = pending[0];
        if out.contains(x) {
            bfs(f, pending.drop_first(), out, head)
        } else {
            bfs(f, pending.drop_first(), out.push(x), head)
        }
    } else if head < out.len() {
        bfs(f, f.succs(out[head]), out, head + 1)
    } else {
        out
    }
}

#[via_fn]
proof fn bfs_decreases<F: Flow>(f: &F, pending: Seq<Location>, out: Seq<Location>, head: int) {
    if pending.len() > 0 && !out.contains(pending[0]) {
        lemma_no_dup_u64_len(out.push(pending[0]));
    }
}

/// The canonical transitive-closure sequence from `loc`: every location
/// reachable in one or more steps, each exactly once, in breadth-first
/// discovery order.
pub open spec fn closure_seq<F: Flow>(f: &F, loc: Location) -> Seq<Location> {
    bfs(f, f.succs(loc), Seq::empty(), 0)
}

/// `to_set` of a nonempty sequence splits off its first element.
proof fn lemma_to_set_drop_first(s: Seq<Location>)
    requires
        s.len() > 0,
    ensures
        s.to_set() == s.drop_first().to_set().insert(s[0]),
{
    broadcast use vstd::set::group_set_axioms;

    assert forall|y: Location| s.to_set().contains(y) implies s.drop_first().to_set().insert(
        s[0],
    ).contains(y) by {
        let k = choose|k: int| 0 <= k < s.len() && s[k] == y;
        if k > 0 {
            assert(s.drop_first()[k - 1] == y);
            assert(s.drop_first().contains(y));
        }
    }
    assert forall|y: Location| s.drop_first().to_set().insert(s[0]).contains(y) implies s.to_set()
        .contains(y) by {
        if y == s[0] {
            assert(s.contains(y));
        } else {
            let k = choose|k: int| 0 <= k < s.drop_first().len() && s.drop_first()[k] == y;
            assert(s[k + 1] == y);
            assert(s.contains(y));
        }
    }
    assert(s.to_set() =~= s.drop_first().to_set().insert(s[0]));
}

/// `to_set` of a push inserts the pushed element.
proof fn lemma_to_set_push(s: Seq<Location>, x: Location)
    ensures
        s.push(x).to_set() == s.to_set().insert(x),
{
    broadcast use vstd::set::group_set_axioms;

    assert forall|y: Location| s.push(x).to_set().contains(y) implies s.to_set().insert(
        x,
    ).contains(y) by {
        let k = choose|k: int| 0 <= k < s.push(x).len() && s.push(x)[k] == y;
        if k < s.len() {
            assert(s[k] == y);
            assert(s.contains(y));
        }
    }
    assert forall|y: Location| s.to_set().insert(x).contains(y) implies s.push(x).to_set()
        .contains(y) by {
        if y == x {
            assert(s.push(x)[s.len() as int] == y);
            assert(s.push(x).contains(y));
        } else {
            let k = choose|k: int| 0 <= k < s.len() && s[k] == y;
            assert(s.push(x)[k] == y);
            assert(s.push(x).contains(y));
        }
    }
    assert(s.push(x).to_set() =~= s.to_set().insert(x));
}

/// An empty sequence has an empty element set.
proof fn lemma_to_set_empty(s: Seq<Location>)
    requires
        s.len() == 0,
    ensures
        s.to_set() == Set::<Location>::empty(),
{
    broadcast use vstd::set::group_set_axioms;

    assert forall|y: Location| !s.to_set().contains(y) by {
        if s.contains(y) {
            let k = choose|k: int| 0 <= k < s.len() && s[k] == y;
        }
    }
    assert(s.to_set() =~= Set::<Location>::empty());
}

/// The breadth-first walk yields a duplicate-free enumeration of exactly the
/// locations reachable from `loc`, provided its state is consistent with
/// having started at `loc`.
proof fn lemma_bfs_invariant<F: Flow>(
    f: &F,
    loc: Location,
    pending: Seq<Location>,
    out: Seq<Location>,
    head: int,
)
    requires
        out.no_duplicates(),
        0 <= head <= out.len(),
        forall|y: Location| out.to_set().contains(y) ==> reaches(f, loc, y),
        forall|y: Location| pending.to_set().contains(y) ==> reaches(f, loc, y),
        f.succs(loc).to_set().subset_of(out.to_set().union(pending.to_set())),
        forall|j: int|
            0 <= j < head ==> #[trigger] f.succs(out[j]).to_set().subset_of(
                out.to_set().union(pending.to_set()),
            ),
    ensures
        ({
            let r = bfs(f, pending, out, head);
            &&& r.no_duplicates()
            &&& forall|y: Location| r.to_set().contains(y) ==> reaches(f, loc, y)
            &&& out.to_set().union(pending.to_set()).subset_of(r.to_set())
            &&& f.succs(loc).to_set().subset_of(r.to_set())
            &&& forall|y: Location|
                r.to_set().contains(y) ==> #[trigger] f.succs(y).to_set().subset_of(r.to_set())
        }),
    decreases 0x1_0000_0000_0000_0000 - out.len(), out.len() - head, pending.len(),
{
    broadcast use vstd::set::group_set_axioms;

    if pending.len() > 0 {
        let x = pending[0];
        let rest = pending.drop_first();
        assert(pending.contains(x));
        assert(pending.to_set().contains(x));
        lemma_to_set_drop_first(pending);
        assert forall|y: Location| rest.to_set().contains(y) implies reaches(f, loc, y) by {
            assert(pending.to_set().contains(y));
        }
        if out.contains(x) {
            assert(out.to_set().contains(x));
            assert(out.to_set().union(rest.to_set()) =~= out.to_set().union(pending.to_set()));
            lemma_bfs_invariant(f, loc, rest, out, head);
        } else {
            let out2 = out.push(x);
            lemma_no_dup_u64_len(out2);
            lemma_to_set_push(out, x);
            assert(out2.no_duplicates());
            assert(out2.to_set().union(rest.to_set()) =~= out.to_set().union(pending.to_set()));
            assert(forall|j: int| 0 <= j < head ==> out2[j] == out[j]);
            assert forall|j: int| 0 <= j < head implies #[trigger] f.succs(out2[j])
                .to_set()
                .subset_of(out2.to_set().union(rest.to_set())) by {
                assert(f.succs(out[j]).to_set().subset_of(out.to_set().union(pending.to_set())));
            }
            lemma_bfs_invariant(f, loc, rest, out2, head);
            assert(bfs(f, pending, out, head) == bfs(f, rest, out2, head));
        }
    } else if head < out.len() {
        let x = out[head];
        let pending2 = f.succs(x);
        lemma_to_set_empty(pending);
        assert(out.to_set().union(pending.to_set()) =~= out.to_set());
        assert(out.to_set().contains(x));
        assert(reaches(f, loc, x));
        assert forall|y: Location| pending2.to_set().contains(y) implies reaches(f, loc, y) by {
            lemma_reach_extend(f, loc, x, y);
        }
        assert forall|j: int| 0 <= j < head + 1 implies #[trigger] f.succs(out[j])
            .to_set()
            .subset_of(out.to_set().union(pending2.to_set())) by {
            if j < head {
                assert(f.succs(out[j]).to_set().subset_of(out.to_set().union(pending.to_set())));
            } else {
                assert(out[j] == x);
            }
        }
        assert(f.succs(loc).to_set().subset_of(out.to_set().union(pending2.to_set())));
        lemma_bfs_invariant(f, loc, pending2, out, head + 1);
        assert(bfs(f, pending, out, head) == bfs(f, pending2, out, head + 1));
    } else {
        assert(bfs(f, pending, out, head) == out);
        lemma_to_set_empty(pending);
        assert(out.to_set().union(pending.to_set()) =~= out.to_set());
        assert forall|y: Location| out.to_set().contains(y) implies #[trigger] f.succs(y)
            .to_set()
            .subset_of(out.to_set()) by {
            assert(out.contains(y));
            let j = choose|j: int| 0 <= j < out.len() && out[j] == y;
            assert(f.succs(out[j]).to_set().subset_of(out.to_set().union(pending.to_set())));
        }
    }
}

/// The transitive-closure enumeration from `loc` is duplicate-free and
/// covers exactly the locations reachable from `loc` in one or more steps.
pub proof fn lemma_closure_char<F: Flow>(f: &F, loc: Location)
    ensures
        closure_seq(f, loc).no_duplicates(),
        closure_seq(f, loc).to_set() == reach_set(f, loc),
{
    broadcast use vstd::seq_lib::group_seq_properties;

    let pending = f.succs(loc);
    let out = Seq::<Location>::empty();
    assert(out.to_set() =~= Set::<Location>::empty());
    assert forall|y: Location| pending.to_set().contains(y) implies reaches(f, loc, y) by {
        lemma_reach_one(f, loc, y);
    }
    assert(f.succs(loc).to_set().subset_of(out.to_set().union(pending.to_set())));
    lemma_bfs_invariant(f, loc, pending, out, 0);
    let r = closure_seq(f, loc);
    assert forall|y: Location| reach_set(f, loc).contains(y) implies r.to_set().contains(y) by {
        let p = choose|p: Seq<Location>|
            #![auto]
            p.len() >= 2 && p[0] == loc && p.last() == y && is_path(f, p);
        lemma_closed_covers_path(f, loc, r.to_set(), p);
    }
    assert(r.to_set() =~= reach_set(f, loc));
}

/// The union of two flows.
#[derive(Debug, Clone)]
pub struct Combined<F, G> {
    /// The first operand.
    pub flow: F,
    /// The second operand.
    pub glow: G,
}

impl<F, G> Combined<F, G> {
    /// Adds `flow` and `glow`.
    pub fn new(flow: F, glow: G) -> (r: Self)
        ensures
            r == (Combined { flow, glow }),
    {
        Self { flow, glow }
    }
}

impl<F: Flow, G: Flow> Flow for Combined<F, G> {
    /// The concatenation of both operands' successors, duplicates kept.
    open spec fn succs(&self, loc: Location) -> Seq<Location> {
        self.flow.succs(loc) + self.glow.succs(loc)
    }

    fn forward(&self, loc: Location) -> (r: Vec<Location>) {
        let mut r = self.flow.forward(loc);
        let mut r2 = self.glow.forward(loc);
        r.append(&mut r2);
        r
    }
}

/// The sequence of `base` successors that are not blocked.
pub open spec fn blocked_succs(base: Seq<Location>, blocked: Seq<Location>) -> Seq<Location> {
    base.filter(|y: Location| !blocked.contains(y))
}

/// Filtering distributes over appending one successor.
pub proof fn lemma_blocked_succs_push(base: Seq<Location>, blocked: Seq<Location>, x: Location)
    ensures
        blocked_succs(base.push(x), blocked) == if blocked.contains(x) {
            blocked_succs(base, blocked)
        } else {
            blocked_succs(base, blocked).push(x)
        },
{
    reveal(Seq::filter);
    assert(base.push(x).drop_last() =~= base);
    assert(base.push(x).last() == x);
}

/// The subtraction of one flow from another: at each location, the blockage
/// flow's direct successors are removed from the base flow's successors.
/// Blocking is one-step at the queried location, never transitive.
#[derive(Debug, Clone)]
pub struct Blocked<F, G> {
    /// The base flow.
    pub flow: F,
    /// The flow whose direct successors are blocked.
    pub blockage: G,
}

impl<F, G> Blocked<F, G> {
    /// Subtracts `blockage` from `flow`.
    pub fn new(flow: F, blockage: G) -> (r: Self)
        ensures
            r == (Blocked { flow, blockage }),
    {
        Self { flow, blockage }
    }
}

impl<F: Flow, G: Flow> Flow for Blocked<F, G> {
    /// The base successors without those the blockage reaches in one step;
    /// order and duplicates of the unblocked base successors are kept.
    open spec fn succs(&self, loc: Location) -> Seq<Location> {
        blocked_succs(self.flow.succs(loc), self.blockage.succs(loc))
    }

    fn forward(&self, loc: Location) -> (r: Vec<Location>) {
        let blocked = self.blockage.forward(loc);
        let base = self.flow.forward(loc);
        let ghost bs = self.blockage.succs(loc);
        let mut out: Vec<Location> = Vec::new();
        proof {
            reveal(Seq::filter);
            assert(base@.subrange(0, 0) =~= Seq::<Location>::empty());
            assert(blocked_succs(base@.subrange(0, 0), bs) =~= Seq::<Location>::empty());
        }
        let mut i: usize = 0;
        while i < base.len()
            invariant
                i <= base.len(),
                blocked@ == bs,
                out@ == blocked_succs(base@.subrange(0, i as int), bs),
            decreases base.len() - i,
        {
            let x = base[i];
            proof {
                assert(base@.subrange(0, i as int + 1) =~= base@.subrange(0, i as int).push(
                    base@[i as int],
                ));
                lemma_blocked_succs_push(base@.subrange(0, i as int), bs, base@[i as int]);
            }
            if !vec_contains(&blocked, x) {
                out.push(x);
            }
            i += 1;
        }
        proof {
            assert(base@.subrange(0, base@.len() as int) =~= base@);
        }
        out
    }
}

/// Whether `x` occurs in `v`.
pub fn vec_contains(v: &Vec<Location>, x: Location) -> (r: bool)
    ensures
        r == v@.contains(x),
{
    let mut i: usize = 0;
    while i < v.len()
        invariant
            i <= v.len(),
            forall|j: int| 0 <= j < i ==> v@[j] != x,
        decreases v.len() - i,
    {
        if v[i] == x {
            return true;
        }
        i += 1;
    }
    false
}

/// The reflexive-free transitive closure of a flow: `forward` enumerates
/// every location reachable in one or more steps, each exactly once, in
/// breadth-first discovery order.  Cycles are handled by expanding each
/// location at most once; the origin itself appears only if a cycle returns
/// to it.
#[derive(Debug, Clone)]
pub struct Transitive<F> {
    /// The underlying one-step flow.
    pub flow: F,
}

impl<F> Transitive<F> {
    /// Takes the transitive closure of `flow`.
    pub fn new(flow: F) -> (r: Self)
        ensures
            r == (Transitive { flow }),
    {
        Self { flow }
    }
}

impl<F: Flow> Flow for Transitive<F> {
    /// The breadth-first enumeration of everything reachable from `loc`.
    open spec fn succs(&self, loc: Location) -> Seq<Location> {
        closure_seq(&self.flow, loc)
    }

    fn forward(&self, loc: Location) -> (r: Vec<Location>) {
        let mut out: Vec<Location> = Vec::new();
        let mut cur: Vec<Location> = self.flow.forward(loc);
        let mut ci: usize = 0;
        let mut head: usize = 0;
        proof {
            assert(cur@.skip(0) =~= cur@);
            assert(out@ =~= Seq::<Location>::empty());
        }
        while ci < cur.len() || head < out.len()
            invariant
                ci <= cur.len(),
                head <= out.len(),
                out@.no_duplicates(),
                bfs(&self.flow, cur@.skip(ci as int), out@, head as int) == closure_seq(
                    &self.flow,
                    loc,
                ),
            decreases 0x1_0000_0000_0000_0000 - out@.len(), out@.len() - head, cur@.len() - ci,
        {
            proof {
                lemma_no_dup_u64_len(out@);
            }
            if ci < cur.len() {
                let x = cur[ci];
                proof {
                    let pending = cur@.skip(ci as int);
                    assert(pending[0] == cur@[ci as int]);
                    assert(pending.len() > 0);
                    assert(pending.drop_first() =~= cur@.skip(ci as int + 1));
                }
                ci += 1;
                if !vec_contains(&out, x) {
                    proof {
                        assert(forall|j: int| 0 <= j < out@.len() ==> out@[j] != x);
                        assert(out@.push(x).no_duplicates());
                    }
                    out.push(x);
                }
            } else {
                let x = out[head];
                proof {
                    let pending = cur@.skip(ci as int);
                    assert(pending.len() == 0);
                }
                head += 1;
                cur = self.flow.forward(x);
                ci = 0;
                proof {
                    assert(cur@.skip(0) =~= cur@);
                }
            }
        }
        proof {
            assert(cur@.skip(ci as int).len() == 0);
            assert(bfs(&self.flow, cur@.skip(ci as int), out@, head as int) == out@);
        }
        out
    }
}


/// Law of blocked flows: at every location, subtracting a blockage keeps
/// exactly the base successors that the blockage does not reach in one step
/// — the element set is the set difference — while the order and the
/// duplicates of the surviving base successors are preserved by the filter.
pub proof fn lemma_blocked_forward<F: Flow, G: Flow>(b: &Blocked<F, G>, loc: Location)
    ensures
        b.succs(loc) == blocked_succs(b.flow.succs(loc), b.blockage.succs(loc)),
        b.succs(loc).to_set() == b.flow.succs(loc).to_set().difference(
            b.blockage.succs(loc).to_set(),
        ),
{
    broadcast use vstd::set::group_set_axioms;
    broadcast use vstd::seq_lib::group_filter_ensures;

    let base = b.flow.succs(loc);
    let blocked = b.blockage.succs(loc);
    let pred = |y: Location| !blocked.contains(y);
    let r = base.filter(pred);
    assert forall|y: Location| r.to_set().contains(y) implies base.to_set().difference(
        blocked.to_set(),
    ).contains(y) by {
        let k = choose|k: int| 0 <= k < r.len() && r[k] == y;
        assert(pred(r[k]));
        base.lemma_filter_contains_rev(pred, y);
        assert(base.contains(y));
        if blocked.contains(y) {
            assert(!pred(y));
        }
        assert(!blocked.to_set().contains(y));
    }
    assert forall|y: Location| base.to_set().difference(blocked.to_set()).contains(
        y,
    ) implies r.to_set().contains(y) by {
        let k = choose|k: int| 0 <= k < base.len() && base[k] == y;
        if blocked.contains(y) {
            assert(blocked.to_set().contains(y));
        }
        assert(pred(base[k]));
        assert(base.filter(pred).contains(base[k]));
    }
    assert(r.to_set() =~= base.to_set().difference(blocked.to_set()));
}

/// Every path through a transitive closure collapses to reachability in the
/// underlying flow.
proof fn lemma_closure_path_collapse<F: Flow>(f: F, p: Seq<Location>)
    requires
        p.len() >= 2,
        is_path(&(Transitive { flow: f }), p),
    ensures
        reaches(&f, p[0], p.last()),
    decreases p.len(),
{
    let t = Transitive { flow: f };
    assert(t.succs(p[0]).contains(p[1]));
    lemma_closure_char(&f, p[0]);
    assert(closure_seq(&f, p[0]).to_set().contains(p[1]));
    assert(reach_set(&f, p[0]).contains(p[1]));
    assert(reaches(&f, p[0], p[1]));
    if p.len() > 2 {
        let q = p.drop_first();
        assert forall|i: int| #![trigger q[i]] 0 <= i < q.len() - 1 implies t.succs(q[i]).contains(
            q[i + 1],
        ) by {
            assert(q[i] == p[i + 1]);
            assert(q[i + 1] == p[i + 2]);
            assert(t.succs(p[i + 1]).contains(p[i + 2]));
        }
        assert(is_path(&t, q));
        lemma_closure_path_collapse(f, q);
        assert(q[0] == p[1] && q.last() == p.last());
        lemma_reach_trans(&f, p[0], p[1], p.last());
    }
}

/// Reachability in the transitive closure of a flow coincides with
/// reachability in the flow itself.
pub proof fn lemma_closure_reaches<F: Flow>(f: F, a: Location, b: Location)
    ensures
        reaches(&(Transitive { flow: f }), a, b) <==> reaches(&f, a, b),
{
    let t = Transitive { flow: f };
    if reaches(&t, a, b) {
        let p = choose|p: Seq<Location>|
            #![auto]
            p.len() >= 2 && p[0] == a && p.last() == b && is_path(&t, p);
        lemma_closure_path_collapse(f, p);
    }
    if reaches(&f, a, b) {
        lemma_closure_char(&f, a);
        assert(reach_set(&f, a).contains(b));
        assert(closure_seq(&f, a).to_set().contains(b));
        assert(t.succs(a).contains(b));
        lemma_reach_one(&t, a, b);
    }
}

/// Law of transitive-closure idempotence: wrapping a closure in a second
/// closure yields the same set of locations at every origin, with no
/// duplicates introduced by the double wrapping; the origin itself appears
/// only if a genuine cycle of the underlying flow returns to it.
pub proof fn lemma_transitive_idempotent<F: Flow>(f: F, loc: Location)
    ensures
        (Transitive { flow: Transitive { flow: f } }).succs(loc).to_set() == (Transitive {
            flow: f,
        }).succs(loc).to_set(),
        (Transitive { flow: Transitive { flow: f } }).succs(loc).no_duplicates(),
        (Transitive { flow: f }).succs(loc).no_duplicates(),
        (Transitive { flow: f }).succs(loc).to_set().contains(loc) <==> reaches(&f, loc, loc),
{
    broadcast use vstd::set::group_set_axioms;

    let t = Transitive { flow: f };
    let t2 = Transitive { flow: t };
    lemma_closure_char(&f, loc);
    lemma_closure_char(&t, loc);
    assert(t.succs(loc).to_set() == reach_set(&f, loc));
    assert(t2.succs(loc).to_set() == reach_set(&t, loc));
    assert forall|y: Location| reach_set(&t, loc).contains(y) <==> reach_set(&f, loc).contains(
        y,
    ) by {
        lemma_closure_reaches(f, loc, y);
    }
    assert(reach_set(&t, loc) =~= reach_set(&f, loc));
}

} // verus!
