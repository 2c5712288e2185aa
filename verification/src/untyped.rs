//! The raw assertion language, before agent references are resolved.
//!
//! An [`UntypedForm`] is the formula as the surface syntax hands it over:
//! agent positions hold references that a later elaboration pass resolves
//! against an agent context.  Here the connectives are binary; elaboration
//! turns them into the n-ary elaborated form.

use vstd::prelude::*;

use crate::form::{tree_leaf, tree_node, tree_to_vec, tree_leaves, tree_view, trees_leaves};
use crate::typed::TypedForget;
use crate::{Agent, Location};

verus! {

/// A reference to an agent, to be resolved against an agent context.
#[derive(Debug, Clone, Copy, PartialEq, Eq, Structural)]
pub struct UntypedRef(pub Agent);

/// A raw formula over agent references and propositions.
#[derive(Debug, PartialEq, Eq)]
pub enum UntypedForm {
    /// Truth.
    Top,
    /// Falsity.
    Bot,
    /// An atomic proposition.
    Prop(Location),
    /// Negation.
    Neg(Box<UntypedForm>),
    /// Binary conjunction.
    Conj(Box<UntypedForm>, Box<UntypedForm>),
    /// Binary disjunction.
    Disj(Box<UntypedForm>, Box<UntypedForm>),
    /// Binary exclusive disjunction.
    Xor(Box<UntypedForm>, Box<UntypedForm>),
    /// Implication.
    Impl(Box<UntypedForm>, Box<UntypedForm>),
    /// Bi-implication.
    BiImpl(Box<UntypedForm>, Box<UntypedForm>),
    /// Bounded universal quantification over propositions.
    Forall(Vec<Location>, Box<UntypedForm>),
    /// Bounded existential quantification over propositions.
    Exist(Vec<Location>, Box<UntypedForm>),
    /// Bounded quantification over agents: `agents <ref> [in <set>]: φ`.
    ForG(Agent, Vec<Agent>, Box<UntypedForm>),
    /// Single-agent knowledge, by reference.
    K(UntypedRef, Box<UntypedForm>),
    /// Common knowledge of a group of references.
    CK(Vec<UntypedRef>, Box<UntypedForm>),
    /// Distributed knowledge of a group of references.
    DK(Vec<UntypedRef>, Box<UntypedForm>),
}

/// The mathematical view of a raw formula.
#[verifier::ext_equal]
pub enum UFormV {
    /// Truth.
    Top,
    /// Falsity.
    Bot,
    /// An atomic proposition.
    Prop(Location),
    /// Negation.
    Neg(Box<UFormV>),
    /// Binary conjunction.
    Conj(Box<UFormV>, Box<UFormV>),
    /// Binary disjunction.
    Disj(Box<UFormV>, Box<UFormV>),
    /// Binary exclusive disjunction.
    Xor(Box<UFormV>, Box<UFormV>),
    /// Implication.
    Impl(Box<UFormV>, Box<UFormV>),
    /// Bi-implication.
    BiImpl(Box<UFormV>, Box<UFormV>),
    /// Bounded universal quantification over propositions.
    Forall(Seq<Location>, Box<UFormV>),
    /// Bounded existential quantification over propositions.
    Exist(Seq<Location>, Box<UFormV>),
    /// Bounded quantification over agents.
    ForG(Agent, Seq<Agent>, Box<UFormV>),
    /// Single-agent knowledge, by reference.
    K(Agent, Box<UFormV>),
    /// Common knowledge of a group of references.
    CK(Seq<Agent>, Box<UFormV>),
    /// Distributed knowledge of a group of references.
    DK(Seq<Agent>, Box<UFormV>),
}

/// The agents behind a sequence of references.
pub open spec fn ref_views(rfs: Seq<UntypedRef>) -> Seq<Agent> {
    rfs.map_values(|r: UntypedRef| r.0)
}

/// The view of a raw formula.
pub open spec fn ufv(f: UntypedForm) -> UFormV
    decreases f,
{
    match f {
        UntypedForm::Top => UFormV::Top,
        UntypedForm::Bot => UFormV::Bot,
        UntypedForm::Prop(p) => UFormV::Prop(p),
        UntypedForm::Neg(p) => UFormV::Neg(Box::new(ufv(*p))),
        UntypedForm::Conj(p1, p2) => UFormV::Conj(Box::new(ufv(*p1)), Box::new(ufv(*p2))),
        UntypedForm::Disj(p1, p2) => UFormV::Disj(Box::new(ufv(*p1)), Box::new(ufv(*p2))),
        UntypedForm::Xor(p1, p2) => UFormV::Xor(Box::new(ufv(*p1)), Box::new(ufv(*p2))),
        UntypedForm::Impl(p1, p2) => UFormV::Impl(Box::new(ufv(*p1)), Box::new(ufv(*p2))),
        UntypedForm::BiImpl(p1, p2) => UFormV::BiImpl(Box::new(ufv(*p1)), Box::new(ufv(*p2))),
        UntypedForm::Forall(xs, p) => UFormV::Forall(xs@, Box::new(ufv(*p))),
        UntypedForm::Exist(xs, p) => UFormV::Exist(xs@, Box::new(ufv(*p))),
        UntypedForm::ForG(rf, set, p) => UFormV::ForG(rf, set@, Box::new(ufv(*p))),
        UntypedForm::K(rf, p) => UFormV::K(rf.0, Box::new(ufv(*p))),
        UntypedForm::CK(rfs, p) => UFormV::CK(ref_views(rfs@), Box::new(ufv(*p))),
        UntypedForm::DK(rfs, p) => UFormV::DK(ref_views(rfs@), Box::new(ufv(*p))),
    }
}

/// The views of a sequence of raw formulas.
pub open spec fn ufvs(ps: Seq<UntypedForm>) -> Seq<UFormV>
    decreases ps,
{
    if ps.len() == 0 {
        Seq::empty()
    } else {
        seq![ufv(ps[0])] + ufvs(ps.drop_first())
    }
}

/// `ufvs` maps `ufv` elementwise.
pub proof fn lemma_ufvs_index(ps: Seq<UntypedForm>)
    ensures
        ufvs(ps).len() == ps.len(),
        forall|i: int| 0 <= i < ps.len() ==> ufvs(ps)[i] == ufv(ps[i]),
    decreases ps.len(),
{
    if ps.len() > 0 {
        lemma_ufvs_index(ps.drop_first());
        assert forall|i: int| 0 <= i < ps.len() implies ufvs(ps)[i] == ufv(ps[i]) by {
            if i > 0 {
                assert(ps.drop_first()[i - 1] == ps[i]);
            }
        }
    }
}

/// The contracted vocabulary of a raw formula.  Here every connective with
/// two children is a two-child node: both sides must survive contraction, or
/// the node drops; every single-child node survives exactly when its child
/// does.
pub open spec fn uvocab_opt(f: UFormV) -> Option<Seq<Location>>
    decreases f,
{
    match f {
        UFormV::Top => None,
        UFormV::Bot => None,
        UFormV::Prop(p) => Some(seq![p]),
        UFormV::Neg(p) => uvocab_opt(*p),
        UFormV::Forall(_, p) => uvocab_opt(*p),
        UFormV::Exist(_, p) => uvocab_opt(*p),
        UFormV::ForG(_, _, p) => uvocab_opt(*p),
        UFormV::K(_, p) => uvocab_opt(*p),
        UFormV::CK(_, p) => uvocab_opt(*p),
        UFormV::DK(_, p) => uvocab_opt(*p),
        UFormV::Conj(p1, p2) => crate::form::vocab_opt2(uvocab_opt(*p1), uvocab_opt(*p2)),
        UFormV::Disj(p1, p2) => crate::form::vocab_opt2(uvocab_opt(*p1), uvocab_opt(*p2)),
        UFormV::Xor(p1, p2) => crate::form::vocab_opt2(uvocab_opt(*p1), uvocab_opt(*p2)),
        UFormV::Impl(p1, p2) => crate::form::vocab_opt2(uvocab_opt(*p1), uvocab_opt(*p2)),
        UFormV::BiImpl(p1, p2) => crate::form::vocab_opt2(uvocab_opt(*p1), uvocab_opt(*p2)),
    }
}

/// The vocabulary of a raw formula as a plain sequence.
pub open spec fn uvocab_seq(f: UFormV) -> Seq<Location> {
    match uvocab_opt(f) {
        Some(s) => s,
        None => Seq::empty(),
    }
}

impl UntypedForm {
    /// The contracted vocabulary as a tree, or `None` when the whole formula
    /// drops out.
    fn vocab_tree(&self) -> (r: Option<iter_tree::Tree<Location>>)
        ensures
            tree_view(r) == uvocab_opt(ufv(*self)),
        decreases *self,
    {
        match self {
            UntypedForm::Top => None,
            UntypedForm::Bot => None,
            UntypedForm::Prop(p) => Some(tree_leaf(*p)),
            UntypedForm::Neg(p) => p.vocab_tree(),
            UntypedForm::Forall(_, p) => p.vocab_tree(),
            UntypedForm::Exist(_, p) => p.vocab_tree(),
            UntypedForm::ForG(_, _, p) => p.vocab_tree(),
            UntypedForm::K(_, p) => p.vocab_tree(),
            UntypedForm::CK(_, p) => p.vocab_tree(),
            UntypedForm::DK(_, p) => p.vocab_tree(),
            UntypedForm::Conj(p1, p2) => Self::vocab_tree_both(p1.vocab_tree(), p2.vocab_tree()),
            UntypedForm::Disj(p1, p2) => Self::vocab_tree_both(p1.vocab_tree(), p2.vocab_tree()),
            UntypedForm::Xor(p1, p2) => Self::vocab_tree_both(p1.vocab_tree(), p2.vocab_tree()),
            UntypedForm::Impl(p1, p2) => Self::vocab_tree_both(p1.vocab_tree(), p2.vocab_tree()),
            UntypedForm::BiImpl(p1, p2) => Self::vocab_tree_both(
                p1.vocab_tree(),
                p2.vocab_tree(),
            ),
        }
    }

    /// The vocabulary tree of a two-child node: `None` unless both sides
    /// survived.
    fn vocab_tree_both(
        r1: Option<iter_tree::Tree<Location>>,
        r2: Option<iter_tree::Tree<Location>>,
    ) -> (r: Option<iter_tree::Tree<Location>>)
        ensures
            tree_view(r) == crate::form::vocab_opt2(tree_view(r1), tree_view(r2)),
    {
        match (r1, r2) {
            (Some(t1), Some(t2)) => {
                let ghost l1 = tree_leaves(t1);
                let ghost l2 = tree_leaves(t2);
                let mut ts: Vec<iter_tree::Tree<Location>> = Vec::new();
                ts.push(t1);
                ts.push(t2);
                proof {
                    let f = |u: iter_tree::Tree<Location>| tree_leaves(u);
                    assert(ts@.map_values(f) =~= seq![l1, l2]);
                    assert(seq![l1, l2].drop_first() =~= seq![l2]);
                    assert(seq![l2].drop_first() =~= Seq::<Seq<Location>>::empty());
                    assert(seq![l1, l2].flatten() == l1 + seq![l2].flatten());
                    assert(seq![l2].flatten() == l2 + Seq::<Seq<Location>>::empty().flatten());
                    assert(l2 + Seq::<Location>::empty() =~= l2);
                    assert(trees_leaves(ts@) == l1 + l2);
                }
                Some(tree_node(ts))
            },
            _ => None,
        }
    }

    /// The vocabulary of the raw formula: every proposition it mentions, in
    /// contraction order, leaves left to right.
    pub fn vocab(&self) -> (r: Vec<Location>)
        ensures
            r@ == uvocab_seq(ufv(*self)),
    {
        match self.vocab_tree() {
            Some(t) => tree_to_vec(t),
            None => Vec::new(),
        }
    }
}

/// A raw `forget` assertion.
#[derive(Debug, Clone, PartialEq, Eq)]
pub struct UntypedForget {
    /// The location that forgets.
    pub subject: Location,
    /// The locations it forgets about.
    pub dependencies: Vec<Location>,
}

impl UntypedForget {
    /// Creates a new raw `forget` assertion.
    pub fn new(subject: Location, dependencies: Vec<Location>) -> (r: Self)
        ensures
            r.subject == subject,
            r.dependencies == dependencies,
    {
        Self { subject, dependencies }
    }

    /// Elaborates into the equivalent [`TypedForget`]; `forget` assertions
    /// carry no agent references, so elaboration only changes the type.
    pub fn elab(self) -> (r: TypedForget)
        ensures
            r.subject == self.subject,
            r.dependencies == self.dependencies,
    {
        let Self { subject, dependencies } = self;
        TypedForget::new(subject, dependencies)
    }
}

/// The raw information for one analysed unit.
#[derive(Debug)]
pub struct UntypedMeta {
    /// The owners of each location.  This table defines the set of valid
    /// agents.
    pub owners: Vec<(Location, Vec<Agent>)>,
    /// The `have` assertions.
    pub haves: Vec<UntypedForm>,
    /// The `ensure` assertions.
    pub ensured: Vec<UntypedForm>,
    /// The `forget` assertions.
    pub forgets: Vec<UntypedForget>,
}

impl UntypedMeta {
    /// Whether the ownership table is in canonical form.
    pub open spec fn wf(&self) -> bool {
        crate::typed::owners_wf(self.owners@)
    }

    /// Creates the raw information from its parts.
    pub fn new(
        owners: Vec<(Location, Vec<Agent>)>,
        haves: Vec<UntypedForm>,
        ensured: Vec<UntypedForm>,
        forgets: Vec<UntypedForget>,
    ) -> (r: Self)
        requires
            crate::typed::owners_wf(owners@),
        ensures
            r.owners == owners,
            r.haves == haves,
            r.ensured == ensured,
            r.forgets == forgets,
            r.wf(),
    {
        Self { owners, haves, ensured, forgets }
    }
}

} // verus!
