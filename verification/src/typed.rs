//! Elaborated assertions and their semantic wiring.
//!
//! A [`TypedMeta`] gathers, for one analysed unit, the ownership table that
//! defines the agents, the elaborated `have` and `ensure` assertions, and the
//! `forget` assertions.  From it the network of channels, the knowledge
//! structure and the announcement flow of a satisfaction query are built.

use vstd::prelude::*;

use crate::flow::{Blocked, Flow};
use crate::form::{fv, fvs, vocab_seq, Form, FormV, KnowStruct};
use crate::network::{
    channel_at, sort_dedup, strictly_sorted, AnnouncementFlowSat, Channel, Group, Network,
    NetworkFlow,
};
use crate::{Agent, Location};

verus! {

/// An elaborated formula: agent references are resolved to concrete agents.
pub type TypedForm = Form;

/// An elaborated `forget` assertion: the subject location no longer depends
/// on the given locations.
#[derive(Debug, Clone, PartialEq, Eq)]
pub struct TypedForget {
    /// The location that forgets.
    pub subject: Location,
    /// The locations it forgets about.
    pub dependencies: Vec<Location>,
}

impl TypedForget {
    /// Creates a new `forget` assertion.
    pub fn new(subject: Location, dependencies: Vec<Location>) -> (r: Self)
        ensures
            r.subject == subject,
            r.dependencies == dependencies,
    {
        Self { subject, dependencies }
    }
}

/// Whether an ownership table is in canonical form: locations strictly
/// sorted, each observer set strictly sorted.
pub open spec fn owners_wf(owners: Seq<(Location, Vec<Agent>)>) -> bool {
    &&& strictly_sorted(owners.map_values(|p: (Location, Vec<Agent>)| p.0))
    &&& forall|i: int| 0 <= i < owners.len() ==> strictly_sorted(#[trigger] owners[i].1@)
}

/// The elaborated information for one analysed unit.
#[derive(Debug)]
pub struct TypedMeta {
    /// The owners of each location.  This table defines the set of valid
    /// agents.
    pub owners: Vec<(Location, Vec<Agent>)>,
    /// The `have` assertions.
    pub haves: Vec<TypedForm>,
    /// The `ensure` assertions.
    pub ensured: Vec<TypedForm>,
    /// The `forget` assertions.
    pub forgets: Vec<TypedForget>,
}

impl TypedMeta {
    /// Whether the ownership table is in canonical form.
    pub open spec fn wf(&self) -> bool {
        owners_wf(self.owners@)
    }

    /// Creates the elaborated information from its parts.
    pub fn new(
        owners: Vec<(Location, Vec<Agent>)>,
        haves: Vec<TypedForm>,
        ensured: Vec<TypedForm>,
        forgets: Vec<TypedForget>,
    ) -> (r: Self)
        requires
            owners_wf(owners@),
        ensures
            r.owners == owners,
            r.haves == haves,
            r.ensured == ensured,
            r.forgets == forgets,
            r.wf(),
    {
        Self { owners, haves, ensured, forgets }
    }

    /// The network of channels this table defines: one channel per location,
    /// listened to by that location's owners.
    pub fn network(&self) -> (r: Network)
        requires
            self.wf(),
        ensures
            r.wf(),
            r.channels@.len() == self.owners@.len(),
            forall|i: int|
                0 <= i < self.owners@.len() ==> (#[trigger] r.channels@[i]).0
                    == self.owners@[i].0 && r.channels@[i].1@ == self.owners@[i].1@,
    {
        let mut channels: Vec<(Location, Channel)> = Vec::new();
        let mut i: usize = 0;
        while i < self.owners.len()
            invariant
                i <= self.owners@.len(),
                channels@.len() == i,
                forall|j: int|
                    0 <= j < i ==> (#[trigger] channels@[j]).0 == self.owners@[j].0
                        && channels@[j].1@ == self.owners@[j].1@,
            decreases self.owners.len() - i,
        {
            let loc = self.owners[i].0;
            let members = crate::form::copy_locations(&self.owners[i].1);
            let chan = Channel { listeners: Group { members } };
            channels.push((loc, chan));
            i += 1;
        }
        proof {
            let keys = channels@.map_values(|p: (Location, Channel)| p.0);
            let okeys = self.owners@.map_values(|p: (Location, Vec<Agent>)| p.0);
            assert forall|a: int, b: int| 0 <= a < b < keys.len() implies keys[a] < keys[b] by {
                assert(okeys[a] == self.owners@[a].0 && okeys[b] == self.owners@[b].0);
            }
        }
        Network { channels }
    }
}

/// A flow carrying the `forget` assertions: a location's successors are the
/// dependencies named by the last `forget` assertion for that location.
#[derive(Debug, Clone)]
pub struct ForgetsFlow {
    /// One entry per `forget` assertion, in assertion order.
    pub entries: Vec<(Location, Vec<Location>)>,
}

/// The successor list of the last entry for `loc`: a later `forget`
/// assertion for the same subject supersedes an earlier one.
pub open spec fn last_succs(entries: Seq<(Location, Vec<Location>)>, loc: Location) -> Seq<
    Location,
>
    decreases entries.len(),
{
    if entries.len() == 0 {
        Seq::empty()
    } else if entries.last().0 == loc {
        entries.last().1@
    } else {
        last_succs(entries.drop_last(), loc)
    }
}

impl ForgetsFlow {
    /// Creates a new flow over the given forget table.
    pub fn new(entries: Vec<(Location, Vec<Location>)>) -> (r: Self)
        ensures
            r.entries == entries,
    {
        Self { entries }
    }
}

impl Flow for ForgetsFlow {
    /// The dependencies of the last entry for `loc`; no entry means no
    /// successors.
    open spec fn succs(&self, loc: Location) -> Seq<Location> {
        last_succs(self.entries@, loc)
    }

    fn forward(&self, loc: Location) -> (r: Vec<Location>) {
        let ghost full = self.entries@;
        let mut i: usize = self.entries.len();
        proof {
            assert(full.subrange(0, i as int) =~= full);
        }
        while i > 0
            invariant
                i <= self.entries@.len(),
                full == self.entries@,
                last_succs(full, loc) == last_succs(full.subrange(0, i as int), loc),
            decreases i,
        {
            proof {
                let s = full.subrange(0, i as int);
                assert(s.last() == full[i - 1]);
                assert(s.drop_last() =~= full.subrange(0, i as int - 1));
            }
            if self.entries[i - 1].0 == loc {
                return crate::form::copy_locations(&self.entries[i - 1].1);
            }
            i -= 1;
        }
        proof {
            assert(full.subrange(0, 0).len() == 0);
        }
        Vec::new()
    }
}


/// The concatenated vocabularies of a sequence of formulas, in order.
pub open spec fn vocabs_of(fs: Seq<FormV>) -> Seq<Location>
    decreases fs.len(),
{
    if fs.len() == 0 {
        Seq::empty()
    } else {
        vocabs_of(fs.drop_last()) + vocab_seq(fs.last())
    }
}

/// Concatenation law for formula-sequence vocabularies.
pub proof fn lemma_vocabs_of_add(a: Seq<FormV>, b: Seq<FormV>)
    ensures
        vocabs_of(a + b) == vocabs_of(a) + vocabs_of(b),
    decreases b.len(),
{
    if b.len() == 0 {
        assert(a + b =~= a);
        assert(vocabs_of(a) + vocabs_of(b) =~= vocabs_of(a));
    } else {
        assert((a + b).drop_last() =~= a + b.drop_last());
        assert((a + b).last() == b.last());
        lemma_vocabs_of_add(a, b.drop_last());
        assert(vocabs_of(a) + vocabs_of(b) =~= (vocabs_of(a) + vocabs_of(b.drop_last()))
            + vocab_seq(b.last()));
    }
}

/// `fvs` distributes over concatenation.
pub proof fn lemma_fvs_add(a: Seq<Form>, b: Seq<Form>)
    ensures
        fvs(a + b) == fvs(a) + fvs(b),
{
    crate::form::lemma_fvs_index(a + b);
    crate::form::lemma_fvs_index(a);
    crate::form::lemma_fvs_index(b);
    assert forall|i: int| 0 <= i < (a + b).len() implies fvs(a + b)[i] == (fvs(a) + fvs(b))[i] by {
        if i < a.len() {
            assert((a + b)[i] == a[i]);
        } else {
            assert((a + b)[i] == b[i - a.len()]);
        }
    }
    assert(fvs(a + b) =~= fvs(a) + fvs(b));
}

/// Whether a blockage table carries, entry for entry, the subjects and the
/// dependency sets of a sequence of `forget` assertions, dependencies in
/// canonical sorted form.
pub open spec fn forgets_entries_match(
    entries: Seq<(Location, Vec<Location>)>,
    forgets: Seq<TypedForget>,
) -> bool {
    &&& entries.len() == forgets.len()
    &&& forall|i: int|
        0 <= i < forgets.len() ==> (#[trigger] entries[i]).0 == forgets[i].subject
            && strictly_sorted(entries[i].1@) && entries[i].1@.to_set()
            == forgets[i].dependencies@.to_set()
}

impl TypedMeta {
    /// Builds the knowledge structure of this unit: the vocabulary of every
    /// assertion, the conjunction of all assertions as the law, and one
    /// observation entry per observing agent per location, each seeing the
    /// full vocabulary.
    pub fn know_struct<K: KnowStruct>(&self) -> (r: K)
        ensures
            r.built_from(
                vocabs_of(fvs(self.haves@) + fvs(self.ensured@)),
                FormV::Conj(fvs(self.haves@) + fvs(self.ensured@)),
                crate::elab::flat_owners(self.owners@).map_values(
                    |a: Agent| (a, vocabs_of(fvs(self.haves@) + fvs(self.ensured@))),
                ),
            ),
    {
        let ghost all = fvs(self.haves@) + fvs(self.ensured@);
        let ghost vocabv = vocabs_of(all);

        // The vocabulary of every assertion, `have` assertions first.
        let mut vocab: Vec<Location> = Vec::new();
        let mut law_children: Vec<Form> = Vec::new();
        proof {
            assert(self.haves@.subrange(0, 0) =~= Seq::<Form>::empty());
            assert(vocab@ =~= vocabs_of(fvs(self.haves@.subrange(0, 0))));
            assert(fvs(law_children@) =~= fvs(self.haves@.subrange(0, 0)));
        }
        let mut i: usize = 0;
        while i < self.haves.len()
            invariant
                i <= self.haves.len(),
                vocab@ == vocabs_of(fvs(self.haves@.subrange(0, i as int))),
                fvs(law_children@) == fvs(self.haves@.subrange(0, i as int)),
            decreases self.haves.len() - i,
        {
            proof {
                assert(self.haves@.subrange(0, i as int + 1) =~= self.haves@.subrange(
                    0,
                    i as int,
                ).push(self.haves@[i as int]));
                crate::form::lemma_fvs_push(
                    self.haves@.subrange(0, i as int),
                    self.haves@[i as int],
                );
                let pre = fvs(self.haves@.subrange(0, i as int));
                let cur = pre.push(fv(self.haves@[i as int]));
                assert(cur.drop_last() =~= pre);
                crate::form::lemma_fvs_push(law_children@, self.haves@[i as int]);
            }
            let c = self.haves[i].deep_clone();
            proof {
                crate::form::lemma_fvs_push(law_children@, c);
            }
            let mut more = self.haves[i].vocab();
            vocab.append(&mut more);
            law_children.push(c);
            i += 1;
        }
        proof {
            assert(self.haves@.subrange(0, self.haves@.len() as int) =~= self.haves@);
        }
        let mut j: usize = 0;
        while j < self.ensured.len()
            invariant
                j <= self.ensured.len(),
                vocab@ == vocabs_of(fvs(self.haves@)) + vocabs_of(
                    fvs(self.ensured@.subrange(0, j as int)),
                ),
                fvs(law_children@) == fvs(self.haves@) + fvs(self.ensured@.subrange(0, j as int)),
            decreases self.ensured.len() - j,
        {
            proof {
                assert(self.ensured@.subrange(0, j as int + 1) =~= self.ensured@.subrange(
                    0,
                    j as int,
                ).push(self.ensured@[j as int]));
                crate::form::lemma_fvs_push(
                    self.ensured@.subrange(0, j as int),
                    self.ensured@[j as int],
                );
                let pre = fvs(self.ensured@.subrange(0, j as int));
                let cur = pre.push(fv(self.ensured@[j as int]));
                assert(cur.drop_last() =~= pre);
                crate::form::lemma_fvs_push(law_children@, self.ensured@[j as int]);
                assert((fvs(self.haves@) + pre).push(fv(self.ensured@[j as int])) =~= fvs(
                    self.haves@,
                ) + cur);
            }
            let c = self.ensured[j].deep_clone();
            proof {
                crate::form::lemma_fvs_push(law_children@, c);
            }
            let mut more = self.ensured[j].vocab();
            vocab.append(&mut more);
            law_children.push(c);
            j += 1;
        }
        proof {
            assert(self.ensured@.subrange(0, self.ensured@.len() as int) =~= self.ensured@);
            lemma_fvs_add(self.haves@, self.ensured@);
            assert(fvs(self.haves@ + self.ensured@) == all);
            lemma_vocabs_of_add(fvs(self.haves@), fvs(self.ensured@));
            assert(vocab@ == vocabv);
            assert(fvs(law_children@) == all);
        }
        let law = Form::Conj(law_children);

        // One observation entry per agent occurrence of the table, each
        // seeing the full vocabulary.
        let ghost flat = crate::elab::flat_owners(self.owners@);
        let ghost target_obs = flat.map_values(|a: Agent| (a, vocabv));
        let mut obs: Vec<(Agent, Vec<Location>)> = Vec::new();
        proof {
            assert(self.owners@.subrange(0, 0) =~= Seq::<(Location, Vec<Agent>)>::empty());
            assert(crate::form::obs_view(obs@) =~= crate::elab::flat_owners(
                self.owners@.subrange(0, 0),
            ).map_values(|a: Agent| (a, vocabv)));
        }
        let mut k: usize = 0;
        while k < self.owners.len()
            invariant
                k <= self.owners.len(),
                vocab@ == vocabv,
                crate::form::obs_view(obs@) == crate::elab::flat_owners(
                    self.owners@.subrange(0, k as int),
                ).map_values(|a: Agent| (a, vocabv)),
            decreases self.owners.len() - k,
        {
            let ghost flat_pre = crate::elab::flat_owners(self.owners@.subrange(0, k as int));
            let members = &self.owners[k].1;
            let mut m: usize = 0;
            while m < members.len()
                invariant
                    m <= members@.len(),
                    vocab@ == vocabv,
                    members@ == self.owners@[k as int].1@,
                    k < self.owners@.len(),
                    crate::form::obs_view(obs@) == (flat_pre + members@.subrange(
                        0,
                        m as int,
                    )).map_values(|a: Agent| (a, vocabv)),
                decreases members@.len() - m,
            {
                let entry = (members[m], crate::form::copy_locations(&vocab));
                proof {
                    let prefix = flat_pre + members@.subrange(0, m as int);
                    let prefix1 = flat_pre + members@.subrange(0, m as int + 1);
                    assert(prefix1 =~= prefix.push(members@[m as int]));
                    let f = |a: Agent| (a, vocabv);
                    assert(prefix1.map_values(f) =~= prefix.map_values(f).push(
                        (members@[m as int], vocabv),
                    ));
                    assert(crate::form::obs_view(obs@.push(entry)) =~= crate::form::obs_view(
                        obs@,
                    ).push((entry.0, entry.1@)));
                }
                obs.push(entry);
                m += 1;
            }
            proof {
                assert(members@.subrange(0, members@.len() as int) =~= members@);
                let cur = self.owners@.subrange(0, k as int + 1);
                assert(cur.drop_last() =~= self.owners@.subrange(0, k as int));
                assert(cur.last() == self.owners@[k as int]);
                assert(crate::elab::flat_owners(cur) == flat_pre + members@);
            }
            k += 1;
        }
        proof {
            assert(self.owners@.subrange(0, self.owners@.len() as int) =~= self.owners@);
        }
        K::new(vocab, law, obs)
    }

    /// The announcement flow of a satisfaction query: the given data flow,
    /// minus the forgotten dependencies, transitively closed over this
    /// unit's network.
    pub fn announcement_flow<F: Flow>(&self, flow: F) -> (r: NetworkFlow<
        Blocked<F, ForgetsFlow>,
    >)
        requires
            self.wf(),
        ensures
            r.network.wf(),
            r.network.channels@.len() == self.owners@.len(),
            forall|i: int|
                0 <= i < self.owners@.len() ==> (#[trigger] r.network.channels@[i]).0
                    == self.owners@[i].0 && r.network.channels@[i].1@ == self.owners@[i].1@,
            r.flow.flow.flow == flow,
            forgets_entries_match(r.flow.flow.blockage.entries@, self.forgets@),
    {
        let mut entries: Vec<(Location, Vec<Location>)> = Vec::new();
        let mut i: usize = 0;
        while i < self.forgets.len()
            invariant
                i <= self.forgets.len(),
                entries@.len() == i,
                forall|j: int|
                    0 <= j < i ==> (#[trigger] entries@[j]).0 == self.forgets@[j].subject
                        && strictly_sorted(entries@[j].1@) && entries@[j].1@.to_set()
                        == self.forgets@[j].dependencies@.to_set(),
            decreases self.forgets.len() - i,
        {
            let deps = sort_dedup(&self.forgets[i].dependencies);
            entries.push((self.forgets[i].subject, deps));
            i += 1;
        }
        let blockage = ForgetsFlow::new(entries);
        let network = self.network();
        let blocked = Blocked::new(flow, blockage);
        NetworkFlow::new(network, blocked)
    }

    /// The full semantics of this unit: its knowledge structure together
    /// with its announcement flow, ready to decide assertions.
    pub fn semantics<F: Flow, K: KnowStruct>(&self, flow: F) -> (r: AnnouncementFlowSat<
        NetworkFlow<Blocked<F, ForgetsFlow>>,
        K,
    >)
        requires
            self.wf(),
        ensures
            r.know.built_from(
                vocabs_of(fvs(self.haves@) + fvs(self.ensured@)),
                FormV::Conj(fvs(self.haves@) + fvs(self.ensured@)),
                crate::elab::flat_owners(self.owners@).map_values(
                    |a: Agent| (a, vocabs_of(fvs(self.haves@) + fvs(self.ensured@))),
                ),
            ),
            r.flow.network.wf(),
            r.flow.network.channels@.len() == self.owners@.len(),
            forall|i: int|
                0 <= i < self.owners@.len() ==> (#[trigger] r.flow.network.channels@[i]).0
                    == self.owners@[i].0 && r.flow.network.channels@[i].1@
                    == self.owners@[i].1@,
            r.flow.flow.flow.flow == flow,
            forgets_entries_match(r.flow.flow.flow.blockage.entries@, self.forgets@),
    {
        let know: K = self.know_struct();
        let aflow = self.announcement_flow(flow);
        AnnouncementFlowSat::new(aflow, know)
    }
}

} // verus!
