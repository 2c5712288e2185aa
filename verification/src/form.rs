//! The modal formula language and its vocabulary extraction.
//!
//! A formula is an immutable expression tree over agent and proposition
//! identifiers.  `Form` is the executable tree; `FormV` is its mathematical
//! view, with sequences in place of vectors.  A formula's *vocabulary* is the
//! sequence of propositions it mentions, computed by a contraction pass:
//! nodes free of propositions are dropped, and which nodes drop depends on
//! the operator's arity class.

use vstd::prelude::*;

use crate::{Agent, Location};

verus! {

/// A modal formula over agents and propositions.  Propositions are identified
/// with locations of the dissemination graph.
#[derive(Debug, PartialEq, Eq)]
pub enum Form {
    /// Truth.
    Top,
    /// Falsity.
    Bot,
    /// An atomic proposition.
    Prop(Location),
    /// Negation.
    Neg(Box<Form>),
    /// N-ary conjunction.
    Conj(Vec<Form>),
    /// N-ary disjunction.
    Disj(Vec<Form>),
    /// N-ary exclusive disjunction.
    Xor(Vec<Form>),
    /// Implication.
    Impl(Box<Form>, Box<Form>),
    /// Equivalence.
    Equiv(Box<Form>, Box<Form>),
    /// Bounded universal quantification over propositions.
    Forall(Vec<Location>, Box<Form>),
    /// Bounded existential quantification over propositions.
    Exist(Vec<Location>, Box<Form>),
    /// Single-agent knowledge.
    K(Agent, Box<Form>),
    /// Common knowledge of a group.
    CK(Vec<Agent>, Box<Form>),
    /// Distributed knowledge of a group.
    DK(Vec<Agent>, Box<Form>),
    /// Common knowledge-or-ignorance of a group.
    CKw(Vec<Agent>, Box<Form>),
    /// Distributed knowledge-or-ignorance of a group.
    DKw(Vec<Agent>, Box<Form>),
    /// Public announcement.
    PA(Box<Form>, Box<Form>),
    /// Weak public announcement.
    PAw(Box<Form>, Box<Form>),
    /// Group announcement.
    GA(Vec<Agent>, Box<Form>, Box<Form>),
    /// Weak group announcement.
    GAw(Vec<Agent>, Box<Form>, Box<Form>),
}

/// The mathematical view of a formula, used by every contract of this crate.
#[verifier::ext_equal]
pub enum FormV {
    /// Truth.
    Top,
    /// Falsity.
    Bot,
    /// An atomic proposition.
    Prop(Location),
    /// Negation.
    Neg(Box<FormV>),
    /// N-ary conjunction.
    Conj(Seq<FormV>),
    /// N-ary disjunction.
    Disj(Seq<FormV>),
    /// N-ary exclusive disjunction.
    Xor(Seq<FormV>),
    /// Implication.
    Impl(Box<FormV>, Box<FormV>),
    /// Equivalence.
    Equiv(Box<FormV>, Box<FormV>),
    /// Bounded universal quantification over propositions.
    Forall(Seq<Location>, Box<FormV>),
    /// Bounded existential quantification over propositions.
    Exist(Seq<Location>, Box<FormV>),
    /// Single-agent knowledge.
    K(Agent, Box<FormV>),
    /// Common knowledge of a group.
    CK(Seq<Agent>, Box<FormV>),
    /// Distributed knowledge of a group.
    DK(Seq<Agent>, Box<FormV>),
    /// Common knowledge-or-ignorance of a group.
    CKw(Seq<Agent>, Box<FormV>),
    /// Distributed knowledge-or-ignorance of a group.
    DKw(Seq<Agent>, Box<FormV>),
    /// Public announcement.
    PA(Box<FormV>, Box<FormV>),
    /// Weak public announcement.
    PAw(Box<FormV>, Box<FormV>),
    /// Group announcement.
    GA(Seq<Agent>, Box<FormV>, Box<FormV>),
    /// Weak group announcement.
    GAw(Seq<Agent>, Box<FormV>, Box<FormV>),
}

/// The view of a formula.
pub open spec fn fv(f: Form) -> FormV
    decreases f,
{
    match f {
        Form::Top => FormV::Top,
        Form::Bot => FormV::Bot,
        Form::Prop(p) => FormV::Prop(p),
        Form::Neg(p) => FormV::Neg(Box::new(fv(*p))),
        Form::Conj(ps) => FormV::Conj(fvs(ps@)),
        Form::Disj(ps) => FormV::Disj(fvs(ps@)),
        Form::Xor(ps) => FormV::Xor(fvs(ps@)),
        Form::Impl(p1, p2) => FormV::Impl(Box::new(fv(*p1)), Box::new(fv(*p2))),
        Form::Equiv(p1, p2) => FormV::Equiv(Box::new(fv(*p1)), Box::new(fv(*p2))),
        Form::Forall(xs, p) => FormV::Forall(xs@, Box::new(fv(*p))),
        Form::Exist(xs, p) => FormV::Exist(xs@, Box::new(fv(*p))),
        Form::K(a, p) => FormV::K(a, Box::new(fv(*p))),
        Form::CK(ags, p) => FormV::CK(ags@, Box::new(fv(*p))),
        Form::DK(ags, p) => FormV::DK(ags@, Box::new(fv(*p))),
        Form::CKw(ags, p) => FormV::CKw(ags@, Box::new(fv(*p))),
        Form::DKw(ags, p) => FormV::DKw(ags@, Box::new(fv(*p))),
        Form::PA(p1, p2) => FormV::PA(Box::new(fv(*p1)), Box::new(fv(*p2))),
        Form::PAw(p1, p2) => FormV::PAw(Box::new(fv(*p1)), Box::new(fv(*p2))),
        Form::GA(ags, p1, p2) => FormV::GA(ags@, Box::new(fv(*p1)), Box::new(fv(*p2))),
        Form::GAw(ags, p1, p2) => FormV::GAw(ags@, Box::new(fv(*p1)), Box::new(fv(*p2))),
    }
}

/// The views of a sequence of formulas.
pub open spec fn fvs(ps: Seq<Form>) -> Seq<FormV>
    decreases ps,
{
    if ps.len() == 0 {
        Seq::empty()
    } else {
        seq![fv(ps[0])] + fvs(ps.drop_first())
    }
}

/// `fvs` maps `fv` elementwise.
pub proof fn lemma_fvs_index(ps: Seq<Form>)
    ensures
        fvs(ps).len() == ps.len(),
        forall|i: int| 0 <= i < ps.len() ==> fvs(ps)[i] == fv(ps[i]),
    decreases ps.len(),
{
    if ps.len() > 0 {
        lemma_fvs_index(ps.drop_first());
        assert forall|i: int| 0 <= i < ps.len() implies fvs(ps)[i] == fv(ps[i]) by {
            if i > 0 {
                assert(ps.drop_first()[i - 1] == ps[i]);
            }
        }
    }
}

/// `fvs` commutes with `push`.
pub proof fn lemma_fvs_push(ps: Seq<Form>, f: Form)
    ensures
        fvs(ps.push(f)) == fvs(ps).push(fv(f)),
{
    lemma_fvs_index(ps.push(f));
    lemma_fvs_index(ps);
    assert(fvs(ps.push(f)) =~= fvs(ps).push(fv(f)));
}

/// The contracted vocabulary of a formula: `None` when the whole node drops
/// out (it mentions no proposition in a way that survives contraction), and
/// otherwise the surviving sequence of propositions, leaves left to right.
///
/// The contraction rule distinguishes three operator classes:
/// - n-ary collection nodes (`Conj`, `Disj`, `Xor`) always survive; children
///   that contract to `None` are silently dropped;
/// - single-child nodes survive exactly when their child does;
/// - two-child nodes (`Impl`, `Equiv`, `PA`, `PAw`, `GA`, `GAw`) survive only
///   when *both* children do — one proposition-free side drops the whole
///   node, even if the other side mentions propositions.
pub open spec fn vocab_opt(f: FormV) -> Option<Seq<Location>>
    decreases f,
{
    match f {
        FormV::Top => None,
        FormV::Bot => None,
        FormV::Prop(p) => Some(seq![p]),
        FormV::Conj(ps) => Some(vocab_children(ps)),
        FormV::Disj(ps) => Some(vocab_children(ps)),
        FormV::Xor(ps) => Some(vocab_children(ps)),
        FormV::Neg(p) => vocab_opt(*p),
        FormV::Forall(_, p) => vocab_opt(*p),
        FormV::Exist(_, p) => vocab_opt(*p),
        FormV::K(_, p) => vocab_opt(*p),
        FormV::CK(_, p) => vocab_opt(*p),
        FormV::DK(_, p) => vocab_opt(*p),
        FormV::CKw(_, p) => vocab_opt(*p),
        FormV::DKw(_, p) => vocab_opt(*p),
        FormV::Impl(p1, p2) => vocab_opt2(vocab_opt(*p1), vocab_opt(*p2)),
        FormV::Equiv(p1, p2) => vocab_opt2(vocab_opt(*p1), vocab_opt(*p2)),
        FormV::PA(p1, p2) => vocab_opt2(vocab_opt(*p1), vocab_opt(*p2)),
        FormV::PAw(p1, p2) => vocab_opt2(vocab_opt(*p1), vocab_opt(*p2)),
        FormV::GA(_, p1, p2) => vocab_opt2(vocab_opt(*p1), vocab_opt(*p2)),
        FormV::GAw(_, p1, p2) => vocab_opt2(vocab_opt(*p1), vocab_opt(*p2)),
    }
}

/// Combines the contracted vocabularies of the two sides of a binary
/// non-collection node: both must survive, or the node drops.
pub open spec fn vocab_opt2(v1: Option<Seq<Location>>, v2: Option<Seq<Location>>) -> Option<
    Seq<Location>,
> {
    match (v1, v2) {
        (Some(s1), Some(s2)) => Some(s1 + s2),
        _ => None,
    }
}

/// The concatenated vocabulary of the children of a collection node; children
/// that contract to `None` contribute nothing.
pub open spec fn vocab_children(ps: Seq<FormV>) -> Seq<Location>
    decreases ps,
{
    if ps.len() == 0 {
        Seq::empty()
    } else {
        (match vocab_opt(ps[0]) {
            Some(s) => s,
            None => Seq::empty(),
        }) + vocab_children(ps.drop_first())
    }
}

/// The vocabulary of a formula as a plain sequence: a dropped node yields the
/// empty sequence.
pub open spec fn vocab_seq(f: FormV) -> Seq<Location> {
    match vocab_opt(f) {
        Some(s) => s,
        None => Seq::empty(),
    }
}

/// Concatenation law for children vocabularies.
pub proof fn lemma_vocab_children_add(a: Seq<FormV>, b: Seq<FormV>)
    ensures
        vocab_children(a + b) == vocab_children(a) + vocab_children(b),
    decreases a.len(),
{
    if a.len() == 0 {
        assert(a + b =~= b);
        assert(vocab_children(a) + vocab_children(b) =~= vocab_children(b));
    } else {
        assert((a + b)[0] == a[0]);
        assert((a + b).drop_first() =~= a.drop_first() + b);
        lemma_vocab_children_add(a.drop_first(), b);
        assert(vocab_children(a + b) =~= vocab_children(a) + vocab_children(b));
    }
}

/// The vocabulary contributed by a single child of a collection node.
pub proof fn lemma_vocab_children_one(f: FormV)
    ensures
        vocab_children(seq![f]) == vocab_seq(f),
{
    let s = seq![f];
    assert(s.drop_first() =~= Seq::<FormV>::empty());
    assert(vocab_children(Seq::<FormV>::empty()) =~= Seq::<Location>::empty());
    assert(vocab_children(s) == vocab_seq(f) + vocab_children(s.drop_first()));
    assert(vocab_seq(f) + Seq::<Location>::empty() =~= vocab_seq(f));
}

/// Appending one child to a collection node appends its vocabulary.
pub proof fn lemma_vocab_children_push(s: Seq<FormV>, f: FormV)
    ensures
        vocab_children(s.push(f)) == vocab_children(s) + vocab_seq(f),
{
    assert(s.push(f) =~= s + seq![f]);
    lemma_vocab_children_add(s, seq![f]);
    lemma_vocab_children_one(f);
}

/// Law of vocabulary contraction, collection side: a collection node
/// (`Conj`, `Disj`, `Xor`) always survives, its vocabulary is the
/// concatenation over its children, and the children that contract to
/// nothing contribute nothing — dropping them leaves the vocabulary
/// unchanged.
pub proof fn lemma_vocab_collection(ps: Seq<FormV>)
    ensures
        vocab_opt(FormV::Conj(ps)) == Some(vocab_children(ps)),
        vocab_opt(FormV::Disj(ps)) == Some(vocab_children(ps)),
        vocab_opt(FormV::Xor(ps)) == Some(vocab_children(ps)),
        vocab_children(ps) == vocab_children(ps.filter(|f: FormV| vocab_opt(f) is Some)),
    decreases ps.len(),
{
    reveal(Seq::filter);
    let pred = |f: FormV| vocab_opt(f) is Some;
    if ps.len() == 0 {
        assert(ps.filter(pred) =~= ps);
    } else {
        let dl = ps.drop_last();
        let l = ps.last();
        lemma_vocab_collection(dl);
        assert(ps =~= dl.push(l));
        lemma_vocab_children_push(dl, l);
        if pred(l) {
            lemma_vocab_children_push(dl.filter(pred), l);
            assert(ps.filter(pred) == dl.filter(pred).push(l));
        } else {
            assert(vocab_seq(l) =~= Seq::<Location>::empty());
            assert(vocab_children(dl) + Seq::<Location>::empty() =~= vocab_children(dl));
            assert(ps.filter(pred) == dl.filter(pred));
        }
    }
}

/// Law of vocabulary contraction, binary side: a two-child non-collection
/// node (`Impl`, `Equiv`, `PA`, `PAw`, `GA`, `GAw`) drops entirely as soon
/// as either side contracts to nothing, and otherwise concatenates both
/// sides' vocabularies.
pub proof fn lemma_vocab_binary(p1: FormV, p2: FormV, ags: Seq<Agent>)
    ensures
        vocab_opt(p1) is None || vocab_opt(p2) is None ==> {
            &&& vocab_opt(FormV::Impl(Box::new(p1), Box::new(p2))) is None
            &&& vocab_opt(FormV::Equiv(Box::new(p1), Box::new(p2))) is None
            &&& vocab_opt(FormV::PA(Box::new(p1), Box::new(p2))) is None
            &&& vocab_opt(FormV::PAw(Box::new(p1), Box::new(p2))) is None
            &&& vocab_opt(FormV::GA(ags, Box::new(p1), Box::new(p2))) is None
            &&& vocab_opt(FormV::GAw(ags, Box::new(p1), Box::new(p2))) is None
        },
        vocab_opt(p1) is Some && vocab_opt(p2) is Some ==> {
            &&& vocab_seq(FormV::Impl(Box::new(p1), Box::new(p2))) == vocab_seq(p1) + vocab_seq(
                p2,
            )
            &&& vocab_seq(FormV::Equiv(Box::new(p1), Box::new(p2))) == vocab_seq(p1) + vocab_seq(
                p2,
            )
            &&& vocab_seq(FormV::PA(Box::new(p1), Box::new(p2))) == vocab_seq(p1) + vocab_seq(p2)
            &&& vocab_seq(FormV::PAw(Box::new(p1), Box::new(p2))) == vocab_seq(p1) + vocab_seq(p2)
            &&& vocab_seq(FormV::GA(ags, Box::new(p1), Box::new(p2))) == vocab_seq(p1)
                + vocab_seq(p2)
            &&& vocab_seq(FormV::GAw(ags, Box::new(p1), Box::new(p2))) == vocab_seq(p1)
                + vocab_seq(p2)
        },
{
}

/// The vocabulary tree of a contraction pass, carried by `iter_tree`'s
/// tree type; its leaves, depth first and left to right, are the surviving
/// propositions.
#[verifier::external_type_specification]
#[verifier::external_body]
#[verifier::reject_recursive_types(Token)]
pub struct ExTree<Token>(iter_tree::Tree<Token>);

/// The leaves of a vocabulary tree, depth first, left to right: the order in
/// which `iter_tree`'s iterator yields them.
pub uninterp spec fn tree_leaves(t: iter_tree::Tree<Location>) -> Seq<Location>;

/// The concatenated leaves of a sequence of vocabulary trees.
pub open spec fn trees_leaves(ts: Seq<iter_tree::Tree<Location>>) -> Seq<Location> {
    ts.map_values(|t: iter_tree::Tree<Location>| tree_leaves(t)).flatten()
}

/// Relies on `iter_tree::Tree::Leaf`: iterating a leaf yields exactly its
/// token, once.
#[verifier::external_body]
pub(crate) fn tree_leaf(x: Location) -> (r: iter_tree::Tree<Location>)
    ensures
        tree_leaves(r) == seq![x],
{
    iter_tree::Tree::Leaf(x)
}

/// Relies on `iter_tree::Tree::Node`: iterating a node yields its children's
/// leaves in order, each child depth first.
#[verifier::external_body]
pub(crate) fn tree_node(children: Vec<iter_tree::Tree<Location>>) -> (r: iter_tree::Tree<Location>)
    ensures
        tree_leaves(r) == trees_leaves(children@),
{
    iter_tree::Tree::Node(children)
}

/// Relies on `iter_tree::Tree::into_iter`: the iterator walks the tree depth
/// first, left to right, yielding every leaf token.
#[verifier::external_body]
pub(crate) fn tree_to_vec(t: iter_tree::Tree<Location>) -> (r: Vec<Location>)
    ensures
        r@ == tree_leaves(t),
{
    t.into_iter().collect()
}

/// The leaves of an optional vocabulary tree.
pub open spec fn tree_view(r: Option<iter_tree::Tree<Location>>) -> Option<Seq<Location>> {
    match r {
        Some(t) => Some(tree_leaves(t)),
        None => None,
    }
}

/// Appending a tree appends its leaves.
proof fn lemma_trees_leaves_push(ts: Seq<iter_tree::Tree<Location>>, t: iter_tree::Tree<Location>)
    ensures
        trees_leaves(ts.push(t)) == trees_leaves(ts) + tree_leaves(t),
{
    let f = |u: iter_tree::Tree<Location>| tree_leaves(u);
    assert(ts.push(t).map_values(f) =~= ts.map_values(f).push(tree_leaves(t)));
    ts.map_values(f).lemma_flatten_push(tree_leaves(t));
}

impl Form {
    /// The contracted vocabulary as a tree of surviving propositions, or
    /// `None` when the whole formula drops out.
    fn vocab_tree(&self) -> (r: Option<iter_tree::Tree<Location>>)
        ensures
            tree_view(r) == vocab_opt(fv(*self)),
        decreases *self,
    {
        match self {
            Form::Top => None,
            Form::Bot => None,
            Form::Prop(p) => Some(tree_leaf(*p)),
            Form::Neg(p) => p.vocab_tree(),
            Form::Forall(_, p) => p.vocab_tree(),
            Form::Exist(_, p) => p.vocab_tree(),
            Form::K(_, p) => p.vocab_tree(),
            Form::CK(_, p) => p.vocab_tree(),
            Form::DK(_, p) => p.vocab_tree(),
            Form::CKw(_, p) => p.vocab_tree(),
            Form::DKw(_, p) => p.vocab_tree(),
            Form::Conj(ps) => Some(Self::vocab_tree_children(ps)),
            Form::Disj(ps) => Some(Self::vocab_tree_children(ps)),
            Form::Xor(ps) => Some(Self::vocab_tree_children(ps)),
            Form::Impl(p1, p2) => Self::vocab_tree_both(p1.vocab_tree(), p2.vocab_tree()),
            Form::Equiv(p1, p2) => Self::vocab_tree_both(p1.vocab_tree(), p2.vocab_tree()),
            Form::PA(p1, p2) => Self::vocab_tree_both(p1.vocab_tree(), p2.vocab_tree()),
            Form::PAw(p1, p2) => Self::vocab_tree_both(p1.vocab_tree(), p2.vocab_tree()),
            Form::GA(_, p1, p2) => Self::vocab_tree_both(p1.vocab_tree(), p2.vocab_tree()),
            Form::GAw(_, p1, p2) => Self::vocab_tree_both(p1.vocab_tree(), p2.vocab_tree()),
        }
    }

    /// The vocabulary tree of a collection node: one child tree per child
    /// that survives contraction, in order.
    fn vocab_tree_children(ps: &Vec<Form>) -> (r: iter_tree::Tree<Location>)
        ensures
            tree_leaves(r) == vocab_children(fvs(ps@)),
        decreases ps@,
    {
        let mut ts: Vec<iter_tree::Tree<Location>> = Vec::new();
        proof {
            assert(ts@.map_values(|u: iter_tree::Tree<Location>| tree_leaves(u)) =~= Seq::<
                Seq<Location>,
            >::empty());
            assert(trees_leaves(ts@) =~= Seq::<Location>::empty());
        }
        let mut i: usize = 0;
        while i < ps.len()
            invariant
                i <= ps.len(),
                trees_leaves(ts@) == vocab_children(fvs(ps@.subrange(0, i as int))),
            decreases ps.len() - i,
        {
            proof {
                assert(ps@.subrange(0, i as int + 1) =~= ps@.subrange(0, i as int).push(
                    ps@[i as int],
                ));
                lemma_fvs_push(ps@.subrange(0, i as int), ps@[i as int]);
                lemma_vocab_children_push(fvs(ps@.subrange(0, i as int)), fv(ps@[i as int]));
            }
            match ps[i].vocab_tree() {
                Some(t) => {
                    proof {
                        lemma_trees_leaves_push(ts@, t);
                    }
                    ts.push(t);
                },
                None => {
                    proof {
                        assert(vocab_seq(fv(ps@[i as int])) =~= Seq::<Location>::empty());
                        assert(trees_leaves(ts@) + Seq::<Location>::empty() =~= trees_leaves(
                            ts@,
                        ));
                    }
                },
            }
            i += 1;
        }
        proof {
            assert(ps@.subrange(0, ps@.len() as int) =~= ps@);
        }
        tree_node(ts)
    }

    /// The vocabulary tree of a binary non-collection node: `None` unless
    /// both sides survived.
    fn vocab_tree_both(
        r1: Option<iter_tree::Tree<Location>>,
        r2: Option<iter_tree::Tree<Location>>,
    ) -> (r: Option<iter_tree::Tree<Location>>)
        ensures
            tree_view(r) == vocab_opt2(tree_view(r1), tree_view(r2)),
    {
        match (r1, r2) {
            (Some(t1), Some(t2)) => {
                let ghost l1 = tree_leaves(t1);
                let ghost l2 = tree_leaves(t2);
                let mut ts: Vec<iter_tree::Tree<Location>> = Vec::new();
                ts.push(t1);
                ts.push(t2);
                proof {
                    let f = |u: iter_tree::Tree<Location>| tree_leaves(u);
                    assert(ts@.map_values(f) =~= seq![l1, l2]);
                    assert(seq![l1, l2].drop_first() =~= seq![l2]);
                    assert(seq![l2].drop_first() =~= Seq::<Seq<Location>>::empty());
                    assert(seq![l1, l2].flatten() == l1 + seq![l2].flatten());
                    assert(seq![l2].flatten() == l2 + Seq::<Seq<Location>>::empty().flatten());
                    assert(l2 + Seq::<Location>::empty() =~= l2);
                    assert(trees_leaves(ts@) == l1 + l2);
                }
                Some(tree_node(ts))
            },
            _ => None,
        }
    }

    /// The vocabulary of the formula: every proposition it mentions, in
    /// contraction order, leaves left to right.
    pub fn vocab(&self) -> (r: Vec<Location>)
        ensures
            r@ == vocab_seq(fv(*self)),
    {
        match self.vocab_tree() {
            Some(t) => tree_to_vec(t),
            None => Vec::new(),
        }
    }

    /// A structural copy of the formula.
    pub fn deep_clone(&self) -> (r: Self)
        ensures
            fv(r) == fv(*self),
        decreases *self,
    {
        match self {
            Form::Top => Form::Top,
            Form::Bot => Form::Bot,
            Form::Prop(p) => Form::Prop(*p),
            Form::Neg(p) => Form::Neg(Box::new(p.deep_clone())),
            Form::Conj(ps) => Form::Conj(Self::clone_children(ps)),
            Form::Disj(ps) => Form::Disj(Self::clone_children(ps)),
            Form::Xor(ps) => Form::Xor(Self::clone_children(ps)),
            Form::Impl(p1, p2) => Form::Impl(
                Box::new(p1.deep_clone()),
                Box::new(p2.deep_clone()),
            ),
            Form::Equiv(p1, p2) => Form::Equiv(
                Box::new(p1.deep_clone()),
                Box::new(p2.deep_clone()),
            ),
            Form::Forall(xs, p) => Form::Forall(copy_locations(xs), Box::new(p.deep_clone())),
            Form::Exist(xs, p) => Form::Exist(copy_locations(xs), Box::new(p.deep_clone())),
            Form::K(a, p) => Form::K(*a, Box::new(p.deep_clone())),
            Form::CK(ags, p) => Form::CK(copy_locations(ags), Box::new(p.deep_clone())),
            Form::DK(ags, p) => Form::DK(copy_locations(ags), Box::new(p.deep_clone())),
            Form::CKw(ags, p) => Form::CKw(copy_locations(ags), Box::new(p.deep_clone())),
            Form::DKw(ags, p) => Form::DKw(copy_locations(ags), Box::new(p.deep_clone())),
            Form::PA(p1, p2) => Form::PA(Box::new(p1.deep_clone()), Box::new(p2.deep_clone())),
            Form::PAw(p1, p2) => Form::PAw(
                Box::new(p1.deep_clone()),
                Box::new(p2.deep_clone()),
            ),
            Form::GA(ags, p1, p2) => Form::GA(
                copy_locations(ags),
                Box::new(p1.deep_clone()),
                Box::new(p2.deep_clone()),
            ),
            Form::GAw(ags, p1, p2) => Form::GAw(
                copy_locations(ags),
                Box::new(p1.deep_clone()),
                Box::new(p2.deep_clone()),
            ),
        }
    }

    /// Structural copies of a collection node's children.
    fn clone_children(ps: &Vec<Form>) -> (r: Vec<Form>)
        ensures
            fvs(r@) == fvs(ps@),
        decreases ps@,
    {
        let mut out: Vec<Form> = Vec::new();
        let mut i: usize = 0;
        while i < ps.len()
            invariant
                i <= ps.len(),
                out@.len() == i,
                fvs(out@) == fvs(ps@.subrange(0, i as int)),
            decreases ps.len() - i,
        {
            let c = ps[i].deep_clone();
            proof {
                assert(ps@.subrange(0, i as int + 1) =~= ps@.subrange(0, i as int).push(
                    ps@[i as int],
                ));
                lemma_fvs_push(ps@.subrange(0, i as int), ps@[i as int]);
                lemma_fvs_push(out@, c);
            }
            out.push(c);
            i += 1;
        }
        proof {
            assert(ps@.subrange(0, ps@.len() as int) =~= ps@);
        }
        out
    }
}

/// A copy of a vector of identifiers.
pub fn copy_locations(v: &Vec<u64>) -> (r: Vec<u64>)
    ensures
        r@ == v@,
{
    let mut out: Vec<u64> = Vec::new();
    let mut i: usize = 0;
    while i < v.len()
        invariant
            i <= v.len(),
            out@ == v@.subrange(0, i as int),
        decreases v.len() - i,
    {
        out.push(v[i]);
        proof {
            assert(v@.subrange(0, i as int + 1) =~= v@.subrange(0, i as int).push(v@[i as int]));
        }
        i += 1;
    }
    proof {
        assert(v@.subrange(0, v@.len() as int) =~= v@);
    }
    out
}

/// A decision procedure for formulas: the knowledge-structure oracle
/// interface.  This crate never implements it over a concrete model; the
/// satisfaction engine is parametric in it.
pub trait Semantics: Sized {
    /// The boolean this oracle assigns to a formula.  A verified
    /// implementation overrides this to expose its decision; left alone it
    /// is unspecified.
    open spec fn sat_spec(&self, form: FormV) -> bool {
        vstd::pervasive::arbitrary()
    }

    /// Decides the formula.
    fn sat(&self, form: Form) -> (r: bool)
        ensures
            r == self.sat_spec(fv(form)),
    ;
}

/// Whether every formula of a sequence is satisfied by the oracle.
pub open spec fn sat_all_spec<S: Semantics>(s: &S, forms: Seq<FormV>) -> bool
    decreases forms.len(),
{
    forms.len() == 0 || (s.sat_spec(forms[0]) && sat_all_spec(s, forms.drop_first()))
}

/// Decides a conjunction of formulas, left to right, stopping at the first
/// failure.
pub fn sat_all<S: Semantics>(s: &S, forms: &Vec<Form>) -> (r: bool)
    ensures
        r == sat_all_spec(s, fvs(forms@)),
{
    let ghost n = forms@.len() as int;
    proof {
        assert(forms@.subrange(0, n) =~= forms@);
    }
    let mut i: usize = 0;
    while i < forms.len()
        invariant
            i <= forms.len(),
            n == forms@.len(),
            sat_all_spec(s, fvs(forms@)) <==> sat_all_spec(s, fvs(forms@.subrange(i as int, n))),
        decreases forms.len() - i,
    {
        let f = forms[i].deep_clone();
        proof {
            let suffix = forms@.subrange(i as int, n);
            lemma_fvs_index(suffix);
            assert(fvs(suffix)[0] == fv(forms@[i as int]));
            assert(fvs(suffix).drop_first() =~= fvs(forms@.subrange(i as int + 1, n))) by {
                lemma_fvs_index(forms@.subrange(i as int + 1, n));
            }
        }
        if !s.sat(f) {
            return false;
        }
        i += 1;
    }
    proof {
        assert(forms@.subrange(n, n) =~= Seq::<Form>::empty());
    }
    true
}

/// A knowledge structure: an oracle constructed from a vocabulary, a law
/// formula, and per-agent observable vocabularies.  Implementations are
/// supplied by the user of this crate; what `new` was given is visible to
/// contracts through `built_from`.
pub trait KnowStruct: Semantics {
    /// Whether this structure was built from the given vocabulary, law and
    /// observation table.  A verified implementation overrides this; left
    /// alone it is unspecified.
    open spec fn built_from(
        &self,
        vocab: Seq<Location>,
        law: FormV,
        obs: Seq<(Agent, Seq<Location>)>,
    ) -> bool {
        vstd::pervasive::arbitrary()
    }

    /// Builds the structure.
    fn new(vocab: Vec<Location>, law: Form, obs: Vec<(Agent, Vec<Location>)>) -> (r: Self)
        ensures
            r.built_from(vocab@, fv(law), obs_view(obs@)),
    ;
}

/// The view of an observation table.
pub open spec fn obs_view(obs: Seq<(Agent, Vec<Location>)>) -> Seq<(Agent, Seq<Location>)> {
    obs.map_values(|p: (Agent, Vec<Location>)| (p.0, p.1@))
}

} // verus!
