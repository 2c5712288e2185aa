//! Agent-context elaboration: resolving agent references in raw formulas.
//!
//! An [`AgentContext`] is an association of reference names to concrete
//! agents, most recent binding first.  Elaboration walks a raw formula,
//! resolves every reference through the context, and unrolls bounded agent
//! quantification into a conjunction, binding the reference to one agent per
//! branch.  An unbound reference is a [`FreeAgent`](ElabError::FreeAgent)
//! error carrying the context at the point of failure; it is never a panic.

use vstd::prelude::*;

use crate::flow::vec_contains;
use crate::form::{copy_locations, fv, fvs, lemma_fvs_index, lemma_fvs_push, Form, FormV};
use crate::typed::{TypedForget, TypedMeta};
use crate::untyped::{ref_views, ufv, ufvs, UFormV, UntypedForm, UntypedMeta};
use crate::{Agent, Location};

verus! {

/// An error that arises during elaboration.
#[derive(Debug)]
pub enum ElabError {
    /// The use of an agent reference with no binding in the enclosing
    /// context; carries the context at the point of failure and the
    /// offending reference.
    FreeAgent(AgentContext, Agent),
}

/// The view of an elaboration error: the context at the failure and the
/// offending reference.
pub open spec fn err_view(e: ElabError) -> (Seq<(Agent, Agent)>, Agent) {
    match e {
        ElabError::FreeAgent(c, x) => (c@, x),
    }
}

/// An association of reference names to concrete agents, most recent
/// binding first.  Extension is non-destructive: it builds a new context,
/// so sibling elaboration branches each see the same enclosing bindings.
#[derive(Debug)]
pub struct AgentContext {
    /// The bindings, most recent first.
    pub bindings: Vec<(Agent, Agent)>,
}

impl View for AgentContext {
    type V = Seq<(Agent, Agent)>;

    open spec fn view(&self) -> Seq<(Agent, Agent)> {
        self.bindings@
    }
}

/// The first binding for `rf`, walking most recent first.
pub open spec fn ctx_lookup(s: Seq<(Agent, Agent)>, rf: Agent) -> Option<Agent>
    decreases s.len(),
{
    if s.len() == 0 {
        None
    } else if s[0].0 == rf {
        Some(s[0].1)
    } else {
        ctx_lookup(s.drop_first(), rf)
    }
}

/// The agents bound in a context, most recent first.
pub open spec fn ctx_agents(s: Seq<(Agent, Agent)>) -> Seq<Agent> {
    s.map_values(|p: (Agent, Agent)| p.1)
}

/// The first occurrences of a sequence's elements, in encounter order.
pub open spec fn dedup_first(s: Seq<Agent>) -> Seq<Agent>
    decreases s.len(),
{
    if s.len() == 0 {
        Seq::empty()
    } else {
        let d = dedup_first(s.drop_last());
        if d.contains(s.last()) {
            d
        } else {
            d.push(s.last())
        }
    }
}

/// A copy of a vector of bindings.
fn copy_bindings(v: &Vec<(Agent, Agent)>) -> (r: Vec<(Agent, Agent)>)
    ensures
        r@ == v@,
{
    let mut out: Vec<(Agent, Agent)> = Vec::new();
    let mut i: usize = 0;
    while i < v.len()
        invariant
            i <= v.len(),
            out@ == v@.subrange(0, i as int),
        decreases v.len() - i,
    {
        out.push(v[i]);
        proof {
            assert(v@.subrange(0, i as int + 1) =~= v@.subrange(0, i as int).push(v@[i as int]));
        }
        i += 1;
    }
    proof {
        assert(v@.subrange(0, v@.len() as int) =~= v@);
    }
    out
}

impl AgentContext {
    /// The empty context.
    pub fn empty() -> (r: Self)
        ensures
            r@ == Seq::<(Agent, Agent)>::empty(),
    {
        Self { bindings: Vec::new() }
    }

    /// A new context with one more binding, in front; the receiver is left
    /// unchanged, so siblings can extend it independently.
    pub fn extend(&self, rf: Agent, ag: Agent) -> (r: Self)
        ensures
            r@ == seq![(rf, ag)] + self@,
    {
        let mut bindings: Vec<(Agent, Agent)> = Vec::new();
        bindings.push((rf, ag));
        let mut i: usize = 0;
        while i < self.bindings.len()
            invariant
                i <= self.bindings.len(),
                bindings@ == seq![(rf, ag)] + self.bindings@.subrange(0, i as int),
            decreases self.bindings.len() - i,
        {
            bindings.push(self.bindings[i]);
            proof {
                assert(self.bindings@.subrange(0, i as int + 1) =~= self.bindings@.subrange(
                    0,
                    i as int,
                ).push(self.bindings@[i as int]));
                assert((seq![(rf, ag)] + self.bindings@.subrange(0, i as int)).push(
                    self.bindings@[i as int],
                ) =~= seq![(rf, ag)] + self.bindings@.subrange(0, i as int + 1));
            }
            i += 1;
        }
        proof {
            assert(self.bindings@.subrange(0, self.bindings@.len() as int) =~= self.bindings@);
        }
        Self { bindings }
    }

    /// A copy of this context, used for error diagnostics.
    fn snapshot(&self) -> (r: Self)
        ensures
            r@ == self@,
    {
        Self { bindings: copy_bindings(&self.bindings) }
    }

    /// Resolves a reference: the most recent binding wins.  An unbound
    /// reference is a `FreeAgent` error carrying this context.
    pub fn lookup(&self, rf: Agent) -> (r: Result<Agent, ElabError>)
        ensures
            match r {
                Ok(a) => ctx_lookup(self@, rf) == Some(a),
                Err(e) => ctx_lookup(self@, rf) is None && err_view(e) == (self@, rf),
            },
    {
        let ghost full = self@;
        proof {
            assert(self@.skip(0) =~= full);
        }
        let mut i: usize = 0;
        while i < self.bindings.len()
            invariant
                i <= self.bindings.len(),
                full == self@,
                ctx_lookup(full, rf) == ctx_lookup(self@.skip(i as int), rf),
            decreases self.bindings.len() - i,
        {
            proof {
                let s = self@.skip(i as int);
                assert(s[0] == self@[i as int]);
                assert(s.drop_first() =~= self@.skip(i as int + 1));
            }
            if self.bindings[i].0 == rf {
                return Ok(self.bindings[i].1);
            }
            i += 1;
        }
        proof {
            assert(self@.skip(self@.len() as int).len() == 0);
        }
        Err(ElabError::FreeAgent(self.snapshot(), rf))
    }

    /// The distinct agents bound in this context, most recent first.
    pub fn distinct_agents(&self) -> (r: Vec<Agent>)
        ensures
            r@ == dedup_first(ctx_agents(self@)),
    {
        let mut out: Vec<Agent> = Vec::new();
        proof {
            assert(ctx_agents(self@.subrange(0, 0)) =~= Seq::<Agent>::empty());
        }
        let mut i: usize = 0;
        while i < self.bindings.len()
            invariant
                i <= self.bindings.len(),
                out@ == dedup_first(ctx_agents(self@.subrange(0, i as int))),
            decreases self.bindings.len() - i,
        {
            let a = self.bindings[i].1;
            proof {
                let pre = ctx_agents(self@.subrange(0, i as int));
                let cur = ctx_agents(self@.subrange(0, i as int + 1));
                assert(cur =~= pre.push(a));
                assert(cur.drop_last() =~= pre);
                assert(cur.last() == a);
            }
            if !vec_contains(&out, a) {
                out.push(a);
            }
            i += 1;
        }
        proof {
            assert(self@.subrange(0, self@.len() as int) =~= self@);
        }
        out
    }
}

/// The elaboration of a raw formula under a context: agent references are
/// resolved most-recent-first, bounded agent quantification unrolls into a
/// conjunction, and the first unbound reference, in elaboration order, is
/// the result's error.
pub open spec fn elab_spec(f: UFormV, ctx: Seq<(Agent, Agent)>) -> Result<
    FormV,
    (Seq<(Agent, Agent)>, Agent),
>
    decreases f, 0int,
{
    match f {
        UFormV::Top => Ok(FormV::Top),
        UFormV::Bot => Ok(FormV::Bot),
        UFormV::Prop(p) => Ok(FormV::Prop(p)),
        UFormV::Neg(p) => match elab_spec(*p, ctx) {
            Ok(q) => Ok(FormV::Neg(Box::new(q))),
            Err(e) => Err(e),
        },
        UFormV::Conj(p1, p2) => match (elab_spec(*p1, ctx), elab_spec(*p2, ctx)) {
            (Ok(q1), Ok(q2)) => Ok(FormV::Conj(seq![q1, q2])),
            (Err(e), _) => Err(e),
            (_, Err(e)) => Err(e),
        },
        UFormV::Disj(p1, p2) => match (elab_spec(*p1, ctx), elab_spec(*p2, ctx)) {
            (Ok(q1), Ok(q2)) => Ok(FormV::Disj(seq![q1, q2])),
            (Err(e), _) => Err(e),
            (_, Err(e)) => Err(e),
        },
        UFormV::Xor(p1, p2) => match (elab_spec(*p1, ctx), elab_spec(*p2, ctx)) {
            (Ok(q1), Ok(q2)) => Ok(FormV::Xor(seq![q1, q2])),
            (Err(e), _) => Err(e),
            (_, Err(e)) => Err(e),
        },
        UFormV::Impl(p1, p2) => match (elab_spec(*p1, ctx), elab_spec(*p2, ctx)) {
            (Ok(q1), Ok(q2)) => Ok(FormV::Impl(Box::new(q1), Box::new(q2))),
            (Err(e), _) => Err(e),
            (_, Err(e)) => Err(e),
        },
        UFormV::BiImpl(p1, p2) => match (elab_spec(*p1, ctx), elab_spec(*p2, ctx)) {
            (Ok(q1), Ok(q2)) => Ok(FormV::Equiv(Box::new(q1), Box::new(q2))),
            (Err(e), _) => Err(e),
            (_, Err(e)) => Err(e),
        },
        UFormV::Forall(xs, p) => match elab_spec(*p, ctx) {
            Ok(q) => Ok(FormV::Forall(xs, Box::new(q))),
            Err(e) => Err(e),
        },
        UFormV::Exist(xs, p) => match elab_spec(*p, ctx) {
            Ok(q) => Ok(FormV::Exist(xs, Box::new(q))),
            Err(e) => Err(e),
        },
        UFormV::ForG(rf, set, p) => {
            let agents = if set.len() == 0 {
                dedup_first(ctx_agents(ctx))
            } else {
                set
            };
            match elab_each(rf, agents, *p, ctx) {
                Ok(qs) => Ok(FormV::Conj(qs)),
                Err(e) => Err(e),
            }
        },
        UFormV::K(rf, p) => match ctx_lookup(ctx, rf) {
            Some(a) => match elab_spec(*p, ctx) {
                Ok(q) => Ok(FormV::K(a, Box::new(q))),
                Err(e) => Err(e),
            },
            None => Err((ctx, rf)),
        },
        UFormV::CK(rfs, p) => match resolve_refs(rfs, ctx) {
            Ok(ags) => match elab_spec(*p, ctx) {
                Ok(q) => Ok(FormV::CK(ags, Box::new(q))),
                Err(e) => Err(e),
            },
            Err(e) => Err(e),
        },
        UFormV::DK(rfs, p) => match resolve_refs(rfs, ctx) {
            Ok(ags) => match elab_spec(*p, ctx) {
                Ok(q) => Ok(FormV::DK(ags, Box::new(q))),
                Err(e) => Err(e),
            },
            Err(e) => Err(e),
        },
    }
}

/// Elaborates the body of an agent quantifier once per agent, in order,
/// binding the reference to that agent each time; the first failing branch
/// is the result's error.
pub open spec fn elab_each(
    rf: Agent,
    agents: Seq<Agent>,
    p: UFormV,
    ctx: Seq<(Agent, Agent)>,
) -> Result<Seq<FormV>, (Seq<(Agent, Agent)>, Agent)>
    decreases p, agents.len() + 1,
{
    if agents.len() == 0 {
        Ok(Seq::empty())
    } else {
        match elab_spec(p, seq![(rf, agents[0])] + ctx) {
            Err(e) => Err(e),
            Ok(q) => match elab_each(rf, agents.drop_first(), p, ctx) {
                Err(e) => Err(e),
                Ok(qs) => Ok(seq![q] + qs),
            },
        }
    }
}

/// Resolves a sequence of references, in order; the first unbound one is
/// the result's error.
pub open spec fn resolve_refs(rfs: Seq<Agent>, ctx: Seq<(Agent, Agent)>) -> Result<
    Seq<Agent>,
    (Seq<(Agent, Agent)>, Agent),
>
    decreases rfs.len(),
{
    if rfs.len() == 0 {
        Ok(Seq::empty())
    } else {
        match ctx_lookup(ctx, rfs[0]) {
            None => Err((ctx, rfs[0])),
            Some(a) => match resolve_refs(rfs.drop_first(), ctx) {
                Ok(rest) => Ok(seq![a] + rest),
                Err(e) => Err(e),
            },
        }
    }
}

/// Law: an unbound agent reference elaborates to a `FreeAgent` error
/// carrying the context at the failure and the offending reference — never
/// to a default value.
pub proof fn lemma_free_agent(rf: Agent, p: UFormV, ctx: Seq<(Agent, Agent)>)
    requires
        ctx_lookup(ctx, rf) is None,
    ensures
        elab_spec(UFormV::K(rf, Box::new(p)), ctx) == Err::<FormV, (Seq<(Agent, Agent)>, Agent)>(
            (ctx, rf),
        ),
{
}

/// Law: a bounded agent quantifier over an explicit agent set unrolls into
/// a conjunction with one branch per listed agent, in listed order, each
/// branch elaborated with the reference bound to that agent.
pub proof fn lemma_forg_unrolls(rf: Agent, set: Seq<Agent>, p: UFormV, ctx: Seq<(Agent, Agent)>)
    requires
        set.len() > 0,
        elab_spec(UFormV::ForG(rf, set, Box::new(p)), ctx) is Ok,
    ensures
        ({
            let qs = match elab_spec(UFormV::ForG(rf, set, Box::new(p)), ctx) {
                Ok(FormV::Conj(qs)) => qs,
                _ => Seq::empty(),
            };
            &&& elab_spec(UFormV::ForG(rf, set, Box::new(p)), ctx) == Ok::<
                FormV,
                (Seq<(Agent, Agent)>, Agent),
            >(FormV::Conj(qs))
            &&& qs.len() == set.len()
            &&& forall|i: int|
                0 <= i < set.len() ==> elab_spec(p, seq![(rf, set[i])] + ctx) == Ok::<
                    FormV,
                    (Seq<(Agent, Agent)>, Agent),
                >(#[trigger] qs[i])
        }),
{
    lemma_elab_each_index(rf, set, p, ctx);
}

/// The branches of an unrolled agent quantifier, elementwise.
proof fn lemma_elab_each_index(rf: Agent, agents: Seq<Agent>, p: UFormV, ctx: Seq<(Agent, Agent)>)
    requires
        elab_each(rf, agents, p, ctx) is Ok,
    ensures
        ({
            let qs = elab_each(rf, agents, p, ctx)->Ok_0;
            &&& qs.len() == agents.len()
            &&& forall|i: int|
                0 <= i < agents.len() ==> elab_spec(p, seq![(rf, agents[i])] + ctx) == Ok::<
                    FormV,
                    (Seq<(Agent, Agent)>, Agent),
                >(#[trigger] qs[i])
        }),
    decreases agents.len(),
{
    if agents.len() > 0 {
        lemma_elab_each_index(rf, agents.drop_first(), p, ctx);
        let qs = elab_each(rf, agents, p, ctx)->Ok_0;
        let rest = elab_each(rf, agents.drop_first(), p, ctx)->Ok_0;
        assert forall|i: int|
            0 <= i < agents.len() implies elab_spec(p, seq![(rf, agents[i])] + ctx) == Ok::<
            FormV,
            (Seq<(Agent, Agent)>, Agent),
        >(#[trigger] qs[i]) by {
            if i > 0 {
                assert(agents.drop_first()[i - 1] == agents[i]);
                assert(rest[i - 1] == qs[i]);
            }
        }
    }
}


/// Resolves a vector of references against a context, in order.
fn resolve_refs_exec(rfs: &Vec<crate::untyped::UntypedRef>, atx: &AgentContext) -> (r: Result<
    Vec<Agent>,
    ElabError,
>)
    ensures
        match r {
            Ok(ags) => resolve_refs(ref_views(rfs@), atx@) == Ok::<
                Seq<Agent>,
                (Seq<(Agent, Agent)>, Agent),
            >(ags@),
            Err(e) => resolve_refs(ref_views(rfs@), atx@) == Err::<
                Seq<Agent>,
                (Seq<(Agent, Agent)>, Agent),
            >(err_view(e)),
        },
{
    let ghost s = ref_views(rfs@);
    let mut out: Vec<Agent> = Vec::new();
    proof {
        assert(s.skip(0) =~= s);
        assert(out@ + s =~= s);
    }
    let mut i: usize = 0;
    while i < rfs.len()
        invariant
            i <= rfs.len(),
            s == ref_views(rfs@),
            resolve_refs(s, atx@) == (match resolve_refs(s.skip(i as int), atx@) {
                Ok(rest) => Ok::<Seq<Agent>, (Seq<(Agent, Agent)>, Agent)>(out@ + rest),
                Err(e) => Err(e),
            }),
        decreases rfs.len() - i,
    {
        proof {
            let sfx = s.skip(i as int);
            assert(sfx[0] == s[i as int]);
            assert(s[i as int] == rfs@[i as int].0);
            assert(sfx.drop_first() =~= s.skip(i as int + 1));
        }
        match atx.lookup(rfs[i].0) {
            Ok(a) => {
                proof {
                    if resolve_refs(s.skip(i as int + 1), atx@) is Ok {
                        let rest = resolve_refs(s.skip(i as int + 1), atx@)->Ok_0;
                        assert(out@ + (seq![a] + rest) =~= out@.push(a) + rest);
                    }
                }
                out.push(a);
            },
            Err(e) => {
                return Err(e);
            },
        }
        i += 1;
    }
    proof {
        assert(s.skip(s.len() as int).len() == 0);
        assert(out@ + Seq::<Agent>::empty() =~= out@);
    }
    Ok(out)
}

impl UntypedForm {

    /// Elaborates the body of an agent quantifier once per remaining agent,
    /// in order, binding the reference to that agent each time.
    fn elab_each_exec(
        rf: Agent,
        agents: &Vec<Agent>,
        i: usize,
        p: &UntypedForm,
        atx: &AgentContext,
    ) -> (r: Result<Vec<Form>, ElabError>)
        requires
            i <= agents@.len(),
        ensures
            match r {
                Ok(qs) => elab_each(rf, agents@.skip(i as int), ufv(*p), atx@) == Ok::<
                    Seq<FormV>,
                    (Seq<(Agent, Agent)>, Agent),
                >(fvs(qs@)),
                Err(e) => elab_each(rf, agents@.skip(i as int), ufv(*p), atx@) == Err::<
                    Seq<FormV>,
                    (Seq<(Agent, Agent)>, Agent),
                >(err_view(e)),
            },
        decreases *p, agents@.len() - i + 1,
    {
        if i == agents.len() {
            let r: Vec<Form> = Vec::new();
            proof {
                assert(agents@.skip(i as int).len() == 0);
                assert(fvs(r@) =~= Seq::<FormV>::empty());
            }
            return Ok(r);
        }
        let ghost sfx = agents@.skip(i as int);
        proof {
            assert(sfx[0] == agents@[i as int]);
            assert(sfx.drop_first() =~= agents@.skip(i as int + 1));
        }
        let ext = atx.extend(rf, agents[i]);
        let q = match p.elab(&ext) {
            Ok(q) => q,
            Err(e) => {
                return Err(e);
            },
        };
        let mut rest = match Self::elab_each_exec(rf, agents, i + 1, p, atx) {
            Ok(v) => v,
            Err(e) => {
                return Err(e);
            },
        };
        let ghost qv = fv(q);
        let ghost oldrest = rest@;
        let ghost restv = fvs(rest@);
        rest.insert(0, q);
        proof {
            let target = seq![qv] + restv;
            lemma_fvs_index(rest@);
            lemma_fvs_index(oldrest);
            assert(rest@ =~= seq![q] + oldrest);
            assert forall|k: int| 0 <= k < fvs(rest@).len() implies fvs(rest@)[k] == target[k] by {
                if k == 0 {
                    assert(rest@[0] == q);
                } else {
                    assert(rest@[k] == oldrest[k - 1]);
                }
            }
            assert(fvs(rest@) =~= target);
        }
        Ok(rest)
    }
    /// Elaborates into the equivalent resolved formula, or reports the
    /// first unbound agent reference.
    pub fn elab(&self, atx: &AgentContext) -> (r: Result<Form, ElabError>)
        ensures
            match r {
                Ok(q) => elab_spec(ufv(*self), atx@) == Ok::<
                    FormV,
                    (Seq<(Agent, Agent)>, Agent),
                >(fv(q)),
                Err(e) => elab_spec(ufv(*self), atx@) == Err::<
                    FormV,
                    (Seq<(Agent, Agent)>, Agent),
                >(err_view(e)),
            },
        decreases *self, 0int,
    {
        match self {
            UntypedForm::Top => Ok(Form::Top),
            UntypedForm::Bot => Ok(Form::Bot),
            UntypedForm::Prop(p) => Ok(Form::Prop(*p)),
            UntypedForm::Neg(p) => {
                let q = match p.elab(atx) {
                    Ok(q) => q,
                    Err(e) => {
                        return Err(e);
                    },
                };
                let ghost qv = fv(q);
                let r = Form::Neg(Box::new(q));
                proof {
                    assert(fv(r) == FormV::Neg(Box::new(qv)));
                }
                Ok(r)
            },
            UntypedForm::Forall(xs, p) => {
                let q = match p.elab(atx) {
                    Ok(q) => q,
                    Err(e) => {
                        return Err(e);
                    },
                };
                let ghost qv = fv(q);
                let r = Form::Forall(copy_locations(xs), Box::new(q));
                proof {
                    assert(fv(r) == FormV::Forall(xs@, Box::new(qv)));
                }
                Ok(r)
            },
            UntypedForm::Exist(xs, p) => {
                let q = match p.elab(atx) {
                    Ok(q) => q,
                    Err(e) => {
                        return Err(e);
                    },
                };
                let ghost qv = fv(q);
                let r = Form::Exist(copy_locations(xs), Box::new(q));
                proof {
                    assert(fv(r) == FormV::Exist(xs@, Box::new(qv)));
                }
                Ok(r)
            },
            UntypedForm::Conj(p1, p2) => {
                let q1 = match p1.elab(atx) {
                    Ok(q) => q,
                    Err(e) => {
                        return Err(e);
                    },
                };
                let q2 = match p2.elab(atx) {
                    Ok(q) => q,
                    Err(e) => {
                        return Err(e);
                    },
                };
                let ghost v1 = fv(q1);
                let ghost v2 = fv(q2);
                let mut children: Vec<Form> = Vec::new();
                children.push(q1);
                children.push(q2);
                proof {
                    lemma_fvs_index(children@);
                    assert(fvs(children@) =~= seq![v1, v2]);
                }
                Ok(Form::Conj(children))
            },
            UntypedForm::Disj(p1, p2) => {
                let q1 = match p1.elab(atx) {
                    Ok(q) => q,
                    Err(e) => {
                        return Err(e);
                    },
                };
                let q2 = match p2.elab(atx) {
                    Ok(q) => q,
                    Err(e) => {
                        return Err(e);
                    },
                };
                let ghost v1 = fv(q1);
                let ghost v2 = fv(q2);
                let mut children: Vec<Form> = Vec::new();
                children.push(q1);
                children.push(q2);
                proof {
                    lemma_fvs_index(children@);
                    assert(fvs(children@) =~= seq![v1, v2]);
                }
                Ok(Form::Disj(children))
            },
            UntypedForm::Xor(p1, p2) => {
                let q1 = match p1.elab(atx) {
                    Ok(q) => q,
                    Err(e) => {
                        return Err(e);
                    },
                };
                let q2 = match p2.elab(atx) {
                    Ok(q) => q,
                    Err(e) => {
                        return Err(e);
                    },
                };
                let ghost v1 = fv(q1);
                let ghost v2 = fv(q2);
                let mut children: Vec<Form> = Vec::new();
                children.push(q1);
                children.push(q2);
                proof {
                    lemma_fvs_index(children@);
                    assert(fvs(children@) =~= seq![v1, v2]);
                }
                Ok(Form::Xor(children))
            },
            UntypedForm::Impl(p1, p2) => {
                let q1 = match p1.elab(atx) {
                    Ok(q) => q,
                    Err(e) => {
                        return Err(e);
                    },
                };
                let q2 = match p2.elab(atx) {
                    Ok(q) => q,
                    Err(e) => {
                        return Err(e);
                    },
                };
                let ghost v1 = fv(q1);
                let ghost v2 = fv(q2);
                let r = Form::Impl(Box::new(q1), Box::new(q2));
                proof {
                    assert(fv(r) == FormV::Impl(Box::new(v1), Box::new(v2)));
                }
                Ok(r)
            },
            UntypedForm::BiImpl(p1, p2) => {
                let q1 = match p1.elab(atx) {
                    Ok(q) => q,
                    Err(e) => {
                        return Err(e);
                    },
                };
                let q2 = match p2.elab(atx) {
                    Ok(q) => q,
                    Err(e) => {
                        return Err(e);
                    },
                };
                let ghost v1 = fv(q1);
                let ghost v2 = fv(q2);
                let r = Form::Equiv(Box::new(q1), Box::new(q2));
                proof {
                    assert(fv(r) == FormV::Equiv(Box::new(v1), Box::new(v2)));
                }
                Ok(r)
            },
            UntypedForm::ForG(rf, set, p) => {
                let agents: Vec<Agent> = if set.len() == 0 {
                    atx.distinct_agents()
                } else {
                    copy_locations(set)
                };
                proof {
                    assert(agents@.skip(0) =~= agents@);
                }
                match Self::elab_each_exec(*rf, &agents, 0, p, atx) {
                    Ok(qs) => {
                        let ghost qsv = fvs(qs@);
                        Ok(Form::Conj(qs))
                    },
                    Err(e) => Err(e),
                }
            },
            UntypedForm::K(rf, p) => {
                let a = match atx.lookup(rf.0) {
                    Ok(a) => a,
                    Err(e) => {
                        return Err(e);
                    },
                };
                let q = match p.elab(atx) {
                    Ok(q) => q,
                    Err(e) => {
                        return Err(e);
                    },
                };
                let ghost qv = fv(q);
                let r = Form::K(a, Box::new(q));
                proof {
                    assert(fv(r) == FormV::K(a, Box::new(qv)));
                }
                Ok(r)
            },
            UntypedForm::CK(rfs, p) => {
                let ags = match resolve_refs_exec(rfs, atx) {
                    Ok(ags) => ags,
                    Err(e) => {
                        return Err(e);
                    },
                };
                let q = match p.elab(atx) {
                    Ok(q) => q,
                    Err(e) => {
                        return Err(e);
                    },
                };
                let ghost qv = fv(q);
                let ghost agsv = ags@;
                let r = Form::CK(ags, Box::new(q));
                proof {
                    assert(fv(r) == FormV::CK(agsv, Box::new(qv)));
                }
                Ok(r)
            },
            UntypedForm::DK(rfs, p) => {
                let ags = match resolve_refs_exec(rfs, atx) {
                    Ok(ags) => ags,
                    Err(e) => {
                        return Err(e);
                    },
                };
                let q = match p.elab(atx) {
                    Ok(q) => q,
                    Err(e) => {
                        return Err(e);
                    },
                };
                let ghost qv = fv(q);
                let ghost agsv = ags@;
                let r = Form::DK(ags, Box::new(q));
                proof {
                    assert(fv(r) == FormV::DK(agsv, Box::new(qv)));
                }
                Ok(r)
            },
        }
    }
}


/// Elaborates a sequence of raw formulas under one context, in order; the
/// first failing formula's error is the result's error.
pub open spec fn elab_forms(fs: Seq<UFormV>, ctx: Seq<(Agent, Agent)>) -> Result<
    Seq<FormV>,
    (Seq<(Agent, Agent)>, Agent),
>
    decreases fs.len(),
{
    if fs.len() == 0 {
        Ok(Seq::empty())
    } else {
        match elab_spec(fs[0], ctx) {
            Err(e) => Err(e),
            Ok(q) => match elab_forms(fs.drop_first(), ctx) {
                Err(e) => Err(e),
                Ok(qs) => Ok(seq![q] + qs),
            },
        }
    }
}

/// Every agent of an ownership table, one occurrence per location that it
/// observes, in table order.
pub open spec fn flat_owners(owners: Seq<(Location, Vec<Agent>)>) -> Seq<Agent>
    decreases owners.len(),
{
    if owners.len() == 0 {
        Seq::empty()
    } else {
        flat_owners(owners.drop_last()) + owners.last().1@
    }
}

/// The root elaboration context of an ownership table: every distinct agent
/// of the table, in table order, bound to itself.
pub open spec fn root_ctx(owners: Seq<(Location, Vec<Agent>)>) -> Seq<(Agent, Agent)> {
    dedup_first(flat_owners(owners)).map_values(|a: Agent| (a, a))
}

/// The first occurrences of a vector's elements, in encounter order.
fn dedup_vec(v: &Vec<Agent>) -> (r: Vec<Agent>)
    ensures
        r@ == dedup_first(v@),
{
    let mut out: Vec<Agent> = Vec::new();
    proof {
        assert(v@.subrange(0, 0) =~= Seq::<Agent>::empty());
    }
    let mut i: usize = 0;
    while i < v.len()
        invariant
            i <= v.len(),
            out@ == dedup_first(v@.subrange(0, i as int)),
        decreases v.len() - i,
    {
        let a = v[i];
        proof {
            let cur = v@.subrange(0, i as int + 1);
            assert(cur.drop_last() =~= v@.subrange(0, i as int));
            assert(cur.last() == a);
        }
        if !vec_contains(&out, a) {
            out.push(a);
        }
        i += 1;
    }
    proof {
        assert(v@.subrange(0, v@.len() as int) =~= v@);
    }
    out
}

/// Elaborates a vector of raw formulas under one context, in order.
fn elab_forms_exec(fs: &Vec<UntypedForm>, atx: &AgentContext) -> (r: Result<
    Vec<Form>,
    ElabError,
>)
    ensures
        match r {
            Ok(qs) => elab_forms(ufvs(fs@), atx@) == Ok::<
                Seq<FormV>,
                (Seq<(Agent, Agent)>, Agent),
            >(fvs(qs@)),
            Err(e) => elab_forms(ufvs(fs@), atx@) == Err::<
                Seq<FormV>,
                (Seq<(Agent, Agent)>, Agent),
            >(err_view(e)),
        },
{
    let ghost s = ufvs(fs@);
    proof {
        crate::untyped::lemma_ufvs_index(fs@);
    }
    let mut out: Vec<Form> = Vec::new();
    proof {
        assert(s.skip(0) =~= s);
        assert(fvs(out@) =~= Seq::<FormV>::empty());
        if elab_forms(s, atx@) is Ok {
            let rest = elab_forms(s, atx@)->Ok_0;
            assert(fvs(out@) + rest =~= rest);
        }
    }
    let mut i: usize = 0;
    while i < fs.len()
        invariant
            i <= fs.len(),
            s == ufvs(fs@),
            fs@.len() == s.len(),
            forall|j: int| 0 <= j < fs@.len() ==> s[j] == ufv(fs@[j]),
            elab_forms(s, atx@) == (match elab_forms(s.skip(i as int), atx@) {
                Ok(rest) => Ok::<Seq<FormV>, (Seq<(Agent, Agent)>, Agent)>(fvs(out@) + rest),
                Err(e) => Err(e),
            }),
        decreases fs.len() - i,
    {
        proof {
            let sfx = s.skip(i as int);
            assert(sfx[0] == s[i as int]);
            assert(sfx.drop_first() =~= s.skip(i as int + 1));
        }
        match fs[i].elab(atx) {
            Err(e) => {
                return Err(e);
            },
            Ok(q) => {
                proof {
                    lemma_fvs_push(out@, q);
                    if elab_forms(s.skip(i as int + 1), atx@) is Ok {
                        let rest = elab_forms(s.skip(i as int + 1), atx@)->Ok_0;
                        assert(fvs(out@) + (seq![fv(q)] + rest) =~= fvs(out@).push(fv(q))
                            + rest);
                    }
                }
                out.push(q);
            },
        }
        i += 1;
    }
    proof {
        assert(s.skip(s.len() as int).len() == 0);
        assert(fvs(out@) + Seq::<FormV>::empty() =~= fvs(out@));
    }
    Ok(out)
}

impl UntypedMeta {
    /// Elaborates every assertion: the root context binds each distinct
    /// agent of the ownership table to itself; `have` assertions first, then
    /// `ensure` assertions, and the first unbound reference aborts the
    /// whole elaboration.
    pub fn elab(self) -> (r: Result<TypedMeta, ElabError>)
        requires
            self.wf(),
        ensures
            match r {
                Ok(tm) => {
                    &&& tm.owners == self.owners
                    &&& elab_forms(ufvs(self.haves@), root_ctx(self.owners@)) == Ok::<
                        Seq<FormV>,
                        (Seq<(Agent, Agent)>, Agent),
                    >(fvs(tm.haves@))
                    &&& elab_forms(ufvs(self.ensured@), root_ctx(self.owners@)) == Ok::<
                        Seq<FormV>,
                        (Seq<(Agent, Agent)>, Agent),
                    >(fvs(tm.ensured@))
                    &&& tm.forgets@.len() == self.forgets@.len()
                    &&& forall|i: int|
                        0 <= i < self.forgets@.len() ==> (#[trigger] tm.forgets@[i]).subject
                            == self.forgets@[i].subject && tm.forgets@[i].dependencies@
                            == self.forgets@[i].dependencies@
                    &&& tm.wf()
                },
                Err(e) => ({
                    let rh = elab_forms(ufvs(self.haves@), root_ctx(self.owners@));
                    if rh is Err {
                        rh == Err::<Seq<FormV>, (Seq<(Agent, Agent)>, Agent)>(err_view(e))
                    } else {
                        elab_forms(ufvs(self.ensured@), root_ctx(self.owners@)) == Err::<
                            Seq<FormV>,
                            (Seq<(Agent, Agent)>, Agent),
                        >(err_view(e))
                    }
                }),
            },
    {
        let UntypedMeta { owners, haves, ensured, forgets } = self;

        // The root context: every distinct agent of the table, bound to
        // itself.
        let mut flat: Vec<Agent> = Vec::new();
        proof {
            assert(owners@.subrange(0, 0) =~= Seq::<(Location, Vec<Agent>)>::empty());
            assert(flat@ =~= flat_owners(owners@.subrange(0, 0)));
        }
        let mut i: usize = 0;
        while i < owners.len()
            invariant
                i <= owners.len(),
                flat@ == flat_owners(owners@.subrange(0, i as int)),
            decreases owners.len() - i,
        {
            proof {
                let cur = owners@.subrange(0, i as int + 1);
                assert(cur.drop_last() =~= owners@.subrange(0, i as int));
                assert(cur.last() == owners@[i as int]);
            }
            let mut members = copy_locations(&owners[i].1);
            flat.append(&mut members);
            i += 1;
        }
        proof {
            assert(owners@.subrange(0, owners@.len() as int) =~= owners@);
        }
        let da = dedup_vec(&flat);
        let mut bindings: Vec<(Agent, Agent)> = Vec::new();
        let mut j: usize = 0;
        while j < da.len()
            invariant
                j <= da.len(),
                da@ == dedup_first(flat_owners(owners@)),
                bindings@.len() == j,
                forall|k: int| 0 <= k < j ==> #[trigger] bindings@[k] == (da@[k], da@[k]),
            decreases da.len() - j,
        {
            let a = da[j];
            bindings.push((a, a));
            j += 1;
        }
        let atx = AgentContext { bindings };
        proof {
            assert(atx@ =~= root_ctx(owners@));
        }

        let th = match elab_forms_exec(&haves, &atx) {
            Ok(v) => v,
            Err(e) => {
                return Err(e);
            },
        };
        let te = match elab_forms_exec(&ensured, &atx) {
            Ok(v) => v,
            Err(e) => {
                return Err(e);
            },
        };

        let mut tf: Vec<TypedForget> = Vec::new();
        let mut k: usize = 0;
        while k < forgets.len()
            invariant
                k <= forgets.len(),
                tf@.len() == k,
                forall|m: int|
                    0 <= m < k ==> (#[trigger] tf@[m]).subject == forgets@[m].subject
                        && tf@[m].dependencies@ == forgets@[m].dependencies@,
            decreases forgets.len() - k,
        {
            let f = TypedForget::new(
                forgets[k].subject,
                copy_locations(&forgets[k].dependencies),
            );
            tf.push(f);
            k += 1;
        }

        Ok(TypedMeta::new(owners, th, te, tf))
    }
}


impl crate::untyped::UntypedRef {
    /// Resolves this reference through the context: the most recent binding
    /// wins, and an unbound reference is a `FreeAgent` error.
    pub fn elab(&self, atx: &AgentContext) -> (r: Result<Agent, ElabError>)
        ensures
            match r {
                Ok(a) => ctx_lookup(atx@, self.0) == Some(a),
                Err(e) => ctx_lookup(atx@, self.0) is None && err_view(e) == (atx@, self.0),
            },
    {
        atx.lookup(self.0)
    }
}

} // verus!
