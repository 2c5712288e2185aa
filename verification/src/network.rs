//! Channels, networks, announcements, and the satisfaction engine.
//!
//! A [`Network`] maps locations to [`Channel`]s, each carrying the [`Group`]
//! of agents listening there.  A [`NetworkFlow`] pairs a network with the
//! transitive closure of a flow; its announcements turn every transitively
//! reachable location that has a channel into a group announcement of that
//! location.  [`AnnouncementFlowSat`] folds those announcements onto a
//! formula, in order, before delegating to a knowledge-structure oracle.

use vstd::prelude::*;

use crate::flow::{Flow, Transitive};
use crate::form::{fv, vocab_seq, Form, FormV, KnowStruct, Semantics};
use crate::{Agent, Location};

verus! {

/// The mathematical view of an announcement: a target group of agents and
/// the announced location.
#[verifier::ext_equal]
pub struct AnnouncementV {
    /// The receivers of the announcement.
    pub target: Seq<Agent>,
    /// The content of the announcement.
    pub val: Location,
}

/// A group of agents: an unordered, deduplicated set, held as a strictly
/// sorted vector of its members.
#[derive(Debug, Clone, PartialEq, Eq)]
pub struct Group {
    /// The members of the group, strictly sorted.
    pub members: Vec<Agent>,
}

/// Whether a sequence is strictly sorted, the canonical form of a set.
pub open spec fn strictly_sorted(s: Seq<u64>) -> bool {
    forall|i: int, j: int| 0 <= i < j < s.len() ==> s[i] < s[j]
}

impl View for Group {
    type V = Seq<Agent>;

    open spec fn view(&self) -> Seq<Agent> {
        self.members@
    }
}

impl Group {
    /// Whether the member list is in canonical, strictly sorted form.
    pub open spec fn wf(&self) -> bool {
        strictly_sorted(self.members@)
    }

    /// Creates a new group with the given `members`.
    pub fn new(members: Vec<Agent>) -> (r: Self)
        requires
            strictly_sorted(members@),
        ensures
            r@ == members@,
            r.wf(),
    {
        Self { members }
    }

    /// Creates a group from arbitrary members, deduplicating and sorting.
    pub fn from_members(members: &Vec<Agent>) -> (r: Self)
        ensures
            r.wf(),
            r@.to_set() == members@.to_set(),
    {
        Self { members: sort_dedup(members) }
    }
}

/// A channel for semi-private group announcements.
#[derive(Debug, Clone, PartialEq, Eq)]
pub struct Channel {
    /// The group of agents listening at the channel.
    pub listeners: Group,
}

impl View for Channel {
    type V = Seq<Agent>;

    open spec fn view(&self) -> Seq<Agent> {
        self.listeners@
    }
}

impl Channel {
    /// Creates a new channel with the given `listeners`.
    pub fn new(listeners: Group) -> (r: Self)
        ensures
            r.listeners == listeners,
    {
        Self { listeners }
    }

    /// Creates an announcement of `val` through the channel to all its
    /// listeners.
    pub fn announcement(&self, val: Location) -> (r: Announcement)
        ensures
            r@ == (AnnouncementV { target: self@, val }),
    {
        Announcement::new(Group { members: crate::form::copy_locations(&self.listeners.members) }, val)
    }
}

/// A semi-private group announcement.
#[derive(Debug, Clone, PartialEq, Eq)]
pub struct Announcement {
    /// The receivers of the announcement.
    pub target: Group,
    /// The content of the announcement.
    pub val: Location,
}

impl View for Announcement {
    type V = AnnouncementV;

    open spec fn view(&self) -> AnnouncementV {
        AnnouncementV { target: self.target@, val: self.val }
    }
}

impl Announcement {
    /// Creates a new announcement of `val` to `target`.
    pub fn new(target: Group, val: Location) -> (r: Self)
        ensures
            r.target == target,
            r.val == val,
    {
        Self { target, val }
    }
}

/// The channel found at a location: the first entry with that key.
pub open spec fn channel_at(s: Seq<(Location, Channel)>, loc: Location) -> Option<Seq<Agent>>
    decreases s.len(),
{
    if s.len() == 0 {
        None
    } else if s[0].0 == loc {
        Some(s[0].1@)
    } else {
        channel_at(s.drop_first(), loc)
    }
}

/// A collection of channels: a map from locations to channels, held as a
/// vector of pairs with strictly sorted keys.
#[derive(Debug, Clone)]
pub struct Network {
    /// The channels at each location.
    pub channels: Vec<(Location, Channel)>,
}

impl Network {
    /// Whether the channel table is in canonical, strictly sorted form.
    pub open spec fn wf(&self) -> bool {
        strictly_sorted(self.channels@.map_values(|p: (Location, Channel)| p.0))
    }

    /// Creates a new network of channels.
    pub fn new(channels: Vec<(Location, Channel)>) -> (r: Self)
        requires
            strictly_sorted(channels@.map_values(|p: (Location, Channel)| p.0)),
        ensures
            r.channels == channels,
            r.wf(),
    {
        Self { channels }
    }

    /// The channel at the given location, if any.  A location without a
    /// channel is not an error: it disseminates to no one.
    pub fn channel(&self, loc: &Location) -> (r: Option<&Channel>)
        ensures
            match r {
                Some(c) => channel_at(self.channels@, *loc) == Some(c@),
                None => channel_at(self.channels@, *loc) is None,
            },
    {
        let ghost full = self.channels@;
        proof {
            assert(self.channels@.skip(0) =~= full);
        }
        let mut i: usize = 0;
        while i < self.channels.len()
            invariant
                i <= self.channels.len(),
                full == self.channels@,
                channel_at(full, *loc) == channel_at(self.channels@.skip(i as int), *loc),
            decreases self.channels.len() - i,
        {
            proof {
                let s = self.channels@.skip(i as int);
                assert(s[0] == self.channels@[i as int]);
                assert(s.drop_first() =~= self.channels@.skip(i as int + 1));
            }
            if self.channels[i].0 == *loc {
                return Some(&self.channels[i].1);
            }
            i += 1;
        }
        proof {
            assert(self.channels@.skip(self.channels@.len() as int).len() == 0);
        }
        None
    }
}

/// Sorts and deduplicates a vector of identifiers into canonical set form.
pub fn sort_dedup(v: &Vec<u64>) -> (r: Vec<u64>)
    ensures
        strictly_sorted(r@),
        r@.to_set() == v@.to_set(),
{
    broadcast use vstd::set::group_set_axioms;

    let mut out: Vec<u64> = Vec::new();
    proof {
        assert(v@.subrange(0, 0) =~= Seq::<u64>::empty());
        lemma_to_set_both_empty(out@, v@.subrange(0, 0));
    }
    let mut i: usize = 0;
    while i < v.len()
        invariant
            i <= v.len(),
            strictly_sorted(out@),
            out@.to_set() == v@.subrange(0, i as int).to_set(),
        decreases v.len() - i,
    {
        proof {
            assert(v@.subrange(0, i as int + 1) =~= v@.subrange(0, i as int).push(v@[i as int]));
            lemma_seq_to_set_push(v@.subrange(0, i as int), v@[i as int]);
        }
        insert_sorted(&mut out, v[i]);
        i += 1;
    }
    proof {
        assert(v@.subrange(0, v@.len() as int) =~= v@);
    }
    out
}

/// Two empty sequences have the same element set.
proof fn lemma_to_set_both_empty(a: Seq<u64>, b: Seq<u64>)
    requires
        a.len() == 0,
        b.len() == 0,
    ensures
        a.to_set() == b.to_set(),
{
    broadcast use vstd::set::group_set_axioms;

    assert forall|y: u64| !a.to_set().contains(y) && !b.to_set().contains(y) by {
        if a.contains(y) {
            let k = choose|k: int| 0 <= k < a.len() && a[k] == y;
        }
        if b.contains(y) {
            let k = choose|k: int| 0 <= k < b.len() && b[k] == y;
        }
    }
    assert(a.to_set() =~= b.to_set());
}

/// `to_set` of a push inserts the pushed element.
proof fn lemma_seq_to_set_push(s: Seq<u64>, x: u64)
    ensures
        s.push(x).to_set() == s.to_set().insert(x),
{
    broadcast use vstd::set::group_set_axioms;

    assert forall|y: u64| s.push(x).to_set().contains(y) implies s.to_set().insert(x).contains(
        y,
    ) by {
        let k = choose|k: int| 0 <= k < s.push(x).len() && s.push(x)[k] == y;
        if k < s.len() {
            assert(s[k] == y);
            assert(s.contains(y));
        }
    }
    assert forall|y: u64| s.to_set().insert(x).contains(y) implies s.push(x).to_set().contains(
        y,
    ) by {
        if y == x {
            assert(s.push(x)[s.len() as int] == y);
            assert(s.push(x).contains(y));
        } else {
            let k = choose|k: int| 0 <= k < s.len() && s[k] == y;
            assert(s.push(x)[k] == y);
            assert(s.push(x).contains(y));
        }
    }
    assert(s.push(x).to_set() =~= s.to_set().insert(x));
}

/// Inserts `x` into a strictly sorted vector, keeping it strictly sorted.
fn insert_sorted(out: &mut Vec<u64>, x: u64)
    requires
        strictly_sorted(old(out)@),
    ensures
        strictly_sorted(final(out)@),
        final(out)@.to_set() == old(out)@.to_set().insert(x),
{
    broadcast use vstd::set::group_set_axioms;

    let mut i: usize = 0;
    while i < out.len() && out[i] < x
        invariant
            i <= out.len(),
            out@ == old(out)@,
            forall|j: int| 0 <= j < i ==> out@[j] < x,
        decreases out.len() - i,
    {
        i += 1;
    }
    if i < out.len() && out[i] == x {
        proof {
            assert(out@.contains(x));
            assert(out@.to_set().contains(x));
            assert(out@.to_set() =~= old(out)@.to_set().insert(x));
        }
        return ;
    }
    let ghost pre = out@;
    out.insert(i, x);
    proof {
        assert(out@ =~= pre.subrange(0, i as int).push(x) + pre.subrange(i as int, pre.len() as int));
        assert forall|a: int, b: int| 0 <= a < b < out@.len() implies out@[a] < out@[b] by {
            if a < i && b < i {
                assert(out@[a] == pre[a] && out@[b] == pre[b]);
            } else if a < i && b == i {
                assert(out@[a] == pre[a] && out@[b] == x);
            } else if a < i && b > i {
                assert(out@[a] == pre[a] && out@[b] == pre[b - 1]);
            } else if a == i && b > i {
                assert(out@[a] == x && out@[b] == pre[b - 1]);
                assert(pre[i as int] >= x);
                assert(pre[i as int] != x);
                if b - 1 > i {
                    assert(pre[i as int] < pre[b - 1]);
                }
            } else {
                assert(out@[a] == pre[a - 1] && out@[b] == pre[b - 1]);
            }
        }
        assert forall|y: u64| out@.to_set().contains(y) implies pre.to_set().insert(x).contains(
            y,
        ) by {
            let k = choose|k: int| 0 <= k < out@.len() && out@[k] == y;
            if k < i {
                assert(pre[k] == y);
                assert(pre.contains(y));
            } else if k > i {
                assert(pre[k - 1] == y);
                assert(pre.contains(y));
            }
        }
        assert forall|y: u64| pre.to_set().insert(x).contains(y) implies out@.to_set().contains(
            y,
        ) by {
            if y == x {
                assert(out@[i as int] == x);
                assert(out@.contains(x));
            } else {
                let k = choose|k: int| 0 <= k < pre.len() && pre[k] == y;
                if k < i {
                    assert(out@[k] == y);
                } else {
                    assert(out@[k + 1] == y);
                }
                assert(out@.contains(y));
            }
        }
        assert(out@.to_set() =~= pre.to_set().insert(x));
    }
}

/// The views of a vector of announcements.
pub open spec fn ann_views(s: Seq<Announcement>) -> Seq<AnnouncementV> {
    s.map_values(|a: Announcement| a@)
}

/// The announcements produced by walking `locs` in order: one announcement
/// per location that has a channel, carrying that location as its value;
/// locations without a channel contribute nothing.
pub open spec fn anns_of_locs(
    channels: Seq<(Location, Channel)>,
    locs: Seq<Location>,
) -> Seq<AnnouncementV>
    decreases locs.len(),
{
    if locs.len() == 0 {
        Seq::empty()
    } else {
        let rest = anns_of_locs(channels, locs.drop_last());
        match channel_at(channels, locs.last()) {
            Some(g) => rest.push(AnnouncementV { target: g, val: locs.last() }),
            None => rest,
        }
    }
}

/// A producer of announcements: for each location, the group announcements
/// that its dissemination gives rise to.
pub trait AnnouncementFlow: Sized {
    /// The exact announcement sequence that `announcements` returns.
    spec fn anns(&self, loc: Location) -> Seq<AnnouncementV>;

    /// The announcements of the data at `loc`.
    fn announcements(&self, loc: Location) -> (r: Vec<Announcement>)
        ensures
            ann_views(r@) == self.anns(loc),
    ;
}

/// A summary of the flow of announcements on a [`Network`]: every location
/// transitively reachable through the flow announces itself through its
/// channel, if it has one.
#[derive(Debug)]
pub struct NetworkFlow<F> {
    /// The network.
    pub network: Network,
    /// The dissemination, transitively closed.
    pub flow: Transitive<F>,
}

impl<F: Flow> NetworkFlow<F> {
    /// Creates a new [`NetworkFlow`], closing `flow` transitively.
    pub fn new(network: Network, flow: F) -> (r: Self)
        ensures
            r.network == network,
            r.flow == (Transitive { flow }),
    {
        let flow = Transitive::new(flow);
        Self { network, flow }
    }
}

impl<F: Flow> AnnouncementFlow for NetworkFlow<F> {
    /// One announcement per transitively reachable location with a channel,
    /// in flow-discovery order.
    open spec fn anns(&self, loc: Location) -> Seq<AnnouncementV> {
        anns_of_locs(self.network.channels@, self.flow.succs(loc))
    }

    fn announcements(&self, loc: Location) -> (r: Vec<Announcement>) {
        let locs = self.flow.forward(loc);
        let mut out: Vec<Announcement> = Vec::new();
        proof {
            assert(locs@.subrange(0, 0) =~= Seq::<Location>::empty());
            assert(ann_views(out@) =~= anns_of_locs(self.network.channels@, locs@.subrange(0, 0)));
        }
        let mut i: usize = 0;
        while i < locs.len()
            invariant
                i <= locs.len(),
                locs@ == self.flow.succs(loc),
                ann_views(out@) == anns_of_locs(self.network.channels@, locs@.subrange(0, i as int)),
            decreases locs.len() - i,
        {
            let l = locs[i];
            proof {
                let prefix1 = locs@.subrange(0, i as int + 1);
                assert(prefix1.drop_last() =~= locs@.subrange(0, i as int));
                assert(prefix1.last() == locs@[i as int]);
            }
            match self.network.channel(&l) {
                Some(chan) => {
                    let ann = chan.announcement(l);
                    proof {
                        assert(ann_views(out@.push(ann)) =~= ann_views(out@).push(ann@));
                    }
                    out.push(ann);
                },
                None => {},
            }
            i += 1;
        }
        proof {
            assert(locs@.subrange(0, locs@.len() as int) =~= locs@);
        }
        out
    }
}

/// The announcements triggered by every proposition of a vocabulary, in
/// vocabulary order, concatenated without deduplication.
pub open spec fn all_anns<AF: AnnouncementFlow>(af: &AF, vocab: Seq<Location>) -> Seq<
    AnnouncementV,
>
    decreases vocab.len(),
{
    if vocab.len() == 0 {
        Seq::empty()
    } else {
        all_anns(af, vocab.drop_last()) + af.anns(vocab.last())
    }
}

/// Folds a sequence of announcements onto a formula, in sequence order: each
/// announcement wraps the accumulated formula in a weak group announcement
/// of its value to its target.  The fold is not commutative: the nesting
/// order is semantically load-bearing.
pub open spec fn rewrite_anns(f: FormV, anns: Seq<AnnouncementV>) -> FormV
    decreases anns.len(),
{
    if anns.len() == 0 {
        f
    } else {
        let a = anns[0];
        rewrite_anns(
            FormV::GAw(a.target, Box::new(FormV::Prop(a.val)), Box::new(f)),
            anns.drop_first(),
        )
    }
}

/// The semantics of formulas with respect to an announcement flow and a
/// knowledge structure: a formula is rewritten to account for what each
/// group learns through the flow, then handed to the oracle.
pub struct AnnouncementFlowSat<F, K> {
    /// The announcement flow.
    pub flow: F,
    /// The knowledge-structure oracle.
    pub know: K,
}

impl<F: AnnouncementFlow, K: KnowStruct> AnnouncementFlowSat<F, K> {
    /// Creates an [`AnnouncementFlowSat`].
    pub fn new(flow: F, know: K) -> (r: Self)
        ensures
            r.flow == flow,
            r.know == know,
    {
        Self { flow, know }
    }
}

impl<F: AnnouncementFlow, K: KnowStruct> Semantics for AnnouncementFlowSat<F, K> {
    /// The oracle's verdict on the formula rewritten under every
    /// announcement that its vocabulary triggers, folded in vocabulary
    /// order and flow-discovery order.
    open spec fn sat_spec(&self, form: FormV) -> bool {
        self.know.sat_spec(rewrite_anns(form, all_anns(&self.flow, vocab_seq(form))))
    }

    fn sat(&self, form: Form) -> (r: bool) {
        let vocab = form.vocab();
        let ghost target_anns = all_anns(&self.flow, vocab_seq(fv(form)));
        let mut anns: Vec<Announcement> = Vec::new();
        proof {
            assert(vocab@.subrange(0, 0) =~= Seq::<Location>::empty());
            assert(ann_views(anns@) =~= all_anns(&self.flow, vocab@.subrange(0, 0)));
        }
        let mut i: usize = 0;
        while i < vocab.len()
            invariant
                i <= vocab.len(),
                vocab@ == vocab_seq(fv(form)),
                ann_views(anns@) == all_anns(&self.flow, vocab@.subrange(0, i as int)),
            decreases vocab.len() - i,
        {
            let p = vocab[i];
            let mut more = self.flow.announcements(p);
            proof {
                let prefix1 = vocab@.subrange(0, i as int + 1);
                assert(prefix1.drop_last() =~= vocab@.subrange(0, i as int));
                assert(prefix1.last() == vocab@[i as int]);
                assert(ann_views(anns@ + more@) =~= ann_views(anns@) + ann_views(more@));
            }
            anns.append(&mut more);
            i += 1;
        }
        proof {
            assert(vocab@.subrange(0, vocab@.len() as int) =~= vocab@);
            assert(ann_views(anns@) == target_anns);
        }
        let ghost target = rewrite_anns(fv(form), target_anns);
        let mut acc = form;
        while anns.len() > 0
            invariant
                rewrite_anns(fv(acc), ann_views(anns@)) == target,
            decreases anns@.len(),
        {
            let ghost old_views = ann_views(anns@);
            let a = anns.remove(0);
            proof {
                assert(old_views[0] == a@);
                assert(old_views.drop_first() =~= ann_views(anns@));
            }
            let ghost acc0 = fv(acc);
            let Announcement { target: group, val } = a;
            proof {
                assert(group@ == old_views[0].target);
                assert(val == old_views[0].val);
            }
            let Group { members } = group;
            let inner = Form::Prop(val);
            let ghost innerv = fv(inner);
            proof {
                assert(innerv == FormV::Prop(val));
            }
            let next = Form::GAw(members, Box::new(inner), Box::new(acc));
            proof {
                assert(fv(next) == FormV::GAw(members@, Box::new(innerv), Box::new(acc0)));
                assert(fv(next) == FormV::GAw(
                    old_views[0].target,
                    Box::new(FormV::Prop(old_views[0].val)),
                    Box::new(acc0),
                ));
            }
            acc = next;
        }
        proof {
            assert(ann_views(anns@).len() == 0);
            assert(rewrite_anns(fv(acc), ann_views(anns@)) == fv(acc));
        }
        self.know.sat(acc)
    }
}

} // verus!
