//! Tests of the flow algebra, vocabulary extraction, elaboration, and the
//! satisfaction engine.

use hermit_core::elab::{AgentContext, ElabError};
use hermit_core::flow::{Blocked, Combined, Flow, Transitive};
use hermit_core::form::{sat_all, Form, KnowStruct, Semantics};
use hermit_core::network::{Announcement, AnnouncementFlow, Channel, Group, NetworkFlow};
use hermit_core::network::{sort_dedup, AnnouncementFlowSat};
use hermit_core::typed::ForgetsFlow;
use hermit_core::untyped::{UntypedForm, UntypedRef};
use hermit_core::{Network, TypedMeta, UntypedForget, UntypedMeta};

/// An oracle that accepts exactly one formula.
struct Expect {
    expected: Form,
}

impl Semantics for Expect {
    fn sat(&self, form: Form) -> bool {
        form == self.expected
    }
}

impl KnowStruct for Expect {
    fn new(_vocab: Vec<u64>, law: Form, _obs: Vec<(u64, Vec<u64>)>) -> Self {
        Expect { expected: law }
    }
}

/// An oracle that records what it was built from and accepts everything.
struct Recorder {
    vocab: Vec<u64>,
    law: Form,
    obs: Vec<(u64, Vec<u64>)>,
}

impl Semantics for Recorder {
    fn sat(&self, _form: Form) -> bool {
        true
    }
}

impl KnowStruct for Recorder {
    fn new(vocab: Vec<u64>, law: Form, obs: Vec<(u64, Vec<u64>)>) -> Self {
        Recorder { vocab, law, obs }
    }
}

fn map_flow(entries: Vec<(u64, Vec<u64>)>) -> ForgetsFlow {
    ForgetsFlow::new(entries)
}

#[test]
fn test_forward() {
    let map = map_flow(vec![(0, vec![1]), (1, vec![2]), (2, vec![0, 1])]);

    assert_eq!(map.forward(0), vec![1u64]);
    assert_eq!(map.forward(1), vec![2u64]);
    assert_eq!(map.forward(2), vec![0u64, 1]);
}

#[test]
fn test_trans() {
    let map = map_flow(vec![(0, vec![1]), (1, vec![2]), (2, vec![0])]).trans();

    assert_eq!(map.forward(0), vec![1u64, 2, 0]);

    let map = map_flow(vec![(0, vec![1]), (1, vec![2]), (2, vec![0, 1, 2])]).trans();

    assert_eq!(map.forward(0), vec![1u64, 2, 0]);
}

#[test]
fn transitive_idempotent_same_set() {
    // A cyclic graph: double wrapping yields the same set, no duplicates.
    let f = map_flow(vec![(0, vec![1]), (1, vec![2, 0]), (2, vec![0])]);
    let once = Transitive::new(f.clone());
    let twice = Transitive::new(Transitive::new(f));
    for loc in 0..3u64 {
        let mut a = once.forward(loc);
        let mut b = twice.forward(loc);
        a.sort();
        b.sort();
        assert_eq!(a, b);
        let mut dedup = b.clone();
        dedup.dedup();
        assert_eq!(dedup, b);
    }
    // The origin appears only because a cycle returns to it.
    assert!(once.forward(0).contains(&0));
    let acyclic = Transitive::new(map_flow(vec![(0, vec![1]), (1, vec![2])]));
    assert!(!acyclic.forward(0).contains(&0));
}

#[test]
fn blocked_keeps_duplicates() {
    // Blocking removes exactly the one-step successors of the blockage and
    // keeps order and duplicates of the rest.
    let base = map_flow(vec![(0, vec![1, 2, 1, 3])]);
    let blockage = map_flow(vec![(0, vec![2])]);
    let blocked = Blocked::new(base, blockage);
    assert_eq!(blocked.forward(0), vec![1u64, 1, 3]);
}

#[test]
fn blocked_is_one_step_only() {
    // The blockage acts at the queried location only; what the blocked
    // location reaches further is cut off by the missing edge, and the
    // blockage is not itself transitive.
    let base = map_flow(vec![(0, vec![1]), (1, vec![2]), (2, vec![3])]);
    let blockage = map_flow(vec![(1, vec![2])]);
    let blocked = Blocked::new(base, blockage);
    assert_eq!(blocked.forward(0), vec![1u64]);
    assert_eq!(blocked.forward(1), Vec::<u64>::new());
    assert_eq!(blocked.forward(2), vec![3u64]);
    let closed = Transitive::new(blocked);
    assert_eq!(closed.forward(0), vec![1u64]);
}

#[test]
fn combined_concatenates() {
    let f = map_flow(vec![(0, vec![1, 2])]);
    let g = map_flow(vec![(0, vec![2, 3])]);
    let both = Combined::new(f, g);
    assert_eq!(both.forward(0), vec![1u64, 2, 2, 3]);
}

#[test]
fn vocab_collection_drops_empty_children() {
    // n-ary collection nodes keep the union of their non-empty children.
    let f = Form::Conj(vec![Form::Top, Form::Prop(5), Form::Bot, Form::Prop(7)]);
    assert_eq!(f.vocab(), vec![5u64, 7]);
    let g = Form::Disj(vec![Form::Top]);
    assert_eq!(g.vocab(), Vec::<u64>::new());
    let h = Form::Xor(vec![Form::Prop(1), Form::Neg(Box::new(Form::Top))]);
    assert_eq!(h.vocab(), vec![1u64]);
}

#[test]
fn vocab_binary_drops_whole_node() {
    // A two-child node with one proposition-free side contributes nothing,
    // even though the other side mentions propositions.
    let f = Form::Impl(Box::new(Form::Top), Box::new(Form::Prop(5)));
    assert_eq!(f.vocab(), Vec::<u64>::new());
    let g = Form::Impl(Box::new(Form::Prop(5)), Box::new(Form::Top));
    assert_eq!(g.vocab(), Vec::<u64>::new());
    let h = Form::Impl(Box::new(Form::Prop(4)), Box::new(Form::Prop(5)));
    assert_eq!(h.vocab(), vec![4u64, 5]);
    let k = Form::GAw(
        vec![1],
        Box::new(Form::Prop(4)),
        Box::new(Form::Equiv(Box::new(Form::Top), Box::new(Form::Prop(5)))),
    );
    assert_eq!(k.vocab(), Vec::<u64>::new());
}

#[test]
fn vocab_unary_propagates() {
    assert_eq!(Form::Neg(Box::new(Form::Top)).vocab(), Vec::<u64>::new());
    assert_eq!(Form::K(1, Box::new(Form::Prop(3))).vocab(), vec![3u64]);
    // A surviving collection child inside a binary node keeps both sides.
    let f = Form::PA(
        Box::new(Form::Conj(vec![Form::Top])),
        Box::new(Form::Prop(5)),
    );
    assert_eq!(f.vocab(), vec![5u64]);
}

#[test]
fn vocab_keeps_duplicates() {
    let f = Form::Conj(vec![Form::Prop(1), Form::Prop(1), Form::Prop(2)]);
    assert_eq!(f.vocab(), vec![1u64, 1, 2]);
}

#[test]
fn untyped_vocab_is_two_child() {
    // In the raw language the connectives are binary, so a proposition-free
    // side drops the node even for a conjunction.
    let f = UntypedForm::Conj(Box::new(UntypedForm::Top), Box::new(UntypedForm::Prop(1)));
    assert_eq!(f.vocab(), Vec::<u64>::new());
    let g = UntypedForm::Conj(Box::new(UntypedForm::Prop(2)), Box::new(UntypedForm::Prop(1)));
    assert_eq!(g.vocab(), vec![2u64, 1]);
}

#[test]
fn elab_unrolls_explicit_set_in_listed_order() {
    let atx = AgentContext::empty();
    let f = UntypedForm::ForG(
        9,
        vec![7, 8],
        Box::new(UntypedForm::K(UntypedRef(9), Box::new(UntypedForm::Prop(1)))),
    );
    let r = f.elab(&atx).unwrap();
    assert_eq!(
        r,
        Form::Conj(vec![
            Form::K(7, Box::new(Form::Prop(1))),
            Form::K(8, Box::new(Form::Prop(1))),
        ])
    );
}

#[test]
fn elab_unbound_reference_is_free_agent() {
    let atx = AgentContext::empty();
    let f = UntypedForm::K(UntypedRef(42), Box::new(UntypedForm::Prop(1)));
    let r = f.elab(&atx);
    assert!(matches!(r, Err(ElabError::FreeAgent(_, 42))));
}

#[test]
fn elab_lookup_most_recent_binding_wins() {
    let atx = AgentContext::empty().extend(9, 1).extend(9, 2);
    assert_eq!(atx.lookup(9).unwrap(), 2);
    let f = UntypedForm::K(UntypedRef(9), Box::new(UntypedForm::Prop(0)));
    assert_eq!(f.elab(&atx).unwrap(), Form::K(2, Box::new(Form::Prop(0))));
}

#[test]
fn elab_meta_builds_root_context_from_owners() {
    // Two locations, overlapping observers: the quantifier with no explicit
    // set unrolls over the distinct agents of the table, in table order.
    let meta = UntypedMeta::new(
        vec![(0, vec![1, 2]), (3, vec![1])],
        vec![UntypedForm::ForG(
            9,
            vec![],
            Box::new(UntypedForm::K(UntypedRef(9), Box::new(UntypedForm::Prop(0)))),
        )],
        vec![],
        vec![UntypedForget::new(0, vec![3])],
    );
    let tm = meta.elab().unwrap();
    assert_eq!(tm.haves.len(), 1);
    assert_eq!(
        tm.haves[0],
        Form::Conj(vec![
            Form::K(1, Box::new(Form::Prop(0))),
            Form::K(2, Box::new(Form::Prop(0))),
        ])
    );
    assert_eq!(tm.forgets.len(), 1);
    assert_eq!(tm.forgets[0].subject, 0);
    assert_eq!(tm.forgets[0].dependencies, vec![3u64]);
}

#[test]
fn elab_meta_reports_first_free_agent() {
    let meta = UntypedMeta::new(
        vec![(0, vec![1])],
        vec![UntypedForm::K(UntypedRef(5), Box::new(UntypedForm::Prop(0)))],
        vec![],
        vec![],
    );
    assert!(matches!(meta.elab(), Err(ElabError::FreeAgent(_, 5))));
}

fn one_channel_network(entries: Vec<(u64, Vec<u64>)>) -> Network {
    let channels = entries
        .into_iter()
        .map(|(loc, members)| (loc, Channel::new(Group::new(members))))
        .collect();
    Network::new(channels)
}

#[test]
fn announcements_skip_missing_channels() {
    // Locations without a channel disseminate to nobody and are skipped.
    let network = one_channel_network(vec![(2, vec![1])]);
    let flow = map_flow(vec![(0, vec![1]), (1, vec![2])]);
    let nf = NetworkFlow::new(network, flow);
    let anns: Vec<Announcement> = nf.announcements(0);
    assert_eq!(anns.len(), 1);
    assert_eq!(anns[0].target.members, vec![1u64]);
    assert_eq!(anns[0].val, 2);
}

#[test]
fn end_to_end_no_forwarding() {
    // One location `pwd` (0), channel listening group `{attacker}` (1),
    // no forward edges: the rewritten formula is the original formula.
    let network = one_channel_network(vec![(0, vec![1])]);
    let flow = map_flow(vec![]);
    let nf = NetworkFlow::new(network, flow);
    let engine = AnnouncementFlowSat::new(
        nf,
        Expect { expected: Form::K(1, Box::new(Form::Prop(0))) },
    );
    assert!(engine.sat(Form::K(1, Box::new(Form::Prop(0)))));
}

#[test]
fn end_to_end_with_forwarding() {
    // Same network plus a channel at `pwd_copy` (2); the flow forwards
    // pwd -> pwd_copy, so the formula is rewritten to a weak group
    // announcement of `pwd_copy` to `{attacker}` around the original.
    let network = one_channel_network(vec![(0, vec![1]), (2, vec![1])]);
    let flow = map_flow(vec![(0, vec![2])]);
    let nf = NetworkFlow::new(network, flow);
    let expected = Form::GAw(
        vec![1],
        Box::new(Form::Prop(2)),
        Box::new(Form::K(1, Box::new(Form::Prop(0)))),
    );
    let engine = AnnouncementFlowSat::new(nf, Expect { expected });
    assert!(engine.sat(Form::K(1, Box::new(Form::Prop(0)))));
}

fn rewrite_for_flow(edges: Vec<(u64, Vec<u64>)>, expected: Form) -> bool {
    let network = one_channel_network(vec![(1, vec![10]), (2, vec![10])]);
    let flow = map_flow(edges);
    let nf = NetworkFlow::new(network, flow);
    let engine = AnnouncementFlowSat::new(nf, Expect { expected });
    engine.sat(Form::Prop(0))
}

#[test]
fn rewrite_order_is_flow_discovery_order() {
    // Two flows with the same announcement set in different orders produce
    // structurally different rewrites, reproducibly.
    let nested_a = Form::GAw(
        vec![10],
        Box::new(Form::Prop(2)),
        Box::new(Form::GAw(
            vec![10],
            Box::new(Form::Prop(1)),
            Box::new(Form::Prop(0)),
        )),
    );
    let nested_b = Form::GAw(
        vec![10],
        Box::new(Form::Prop(1)),
        Box::new(Form::GAw(
            vec![10],
            Box::new(Form::Prop(2)),
            Box::new(Form::Prop(0)),
        )),
    );
    // Flow A discovers 1 then 2; flow B discovers 2 then 1.
    assert!(rewrite_for_flow(vec![(0, vec![1, 2])], nested_a.deep_clone()));
    assert!(rewrite_for_flow(vec![(0, vec![2, 1])], nested_b.deep_clone()));
    assert!(!rewrite_for_flow(vec![(0, vec![2, 1])], nested_a.deep_clone()));
    // Identical inputs give identical results across repeated runs.
    for _ in 0..3 {
        assert!(rewrite_for_flow(vec![(0, vec![1, 2])], nested_a.deep_clone()));
    }
}

#[test]
fn sat_all_is_left_to_right_conjunction() {
    let oracle = Expect { expected: Form::Prop(5) };
    assert!(sat_all(&oracle, &vec![Form::Prop(5), Form::Prop(5)]));
    assert!(!sat_all(&oracle, &vec![Form::Prop(5), Form::Prop(6)]));
    assert!(!sat_all(&oracle, &vec![Form::Prop(6), Form::Prop(5)]));
    assert!(sat_all(&oracle, &Vec::new()));
}

#[test]
fn know_struct_gathers_vocab_law_and_observations() {
    let tm = TypedMeta::new(
        vec![(0, vec![1, 2]), (3, vec![2])],
        vec![Form::Prop(0)],
        vec![Form::K(1, Box::new(Form::Prop(3)))],
        vec![],
    );
    let k: Recorder = tm.know_struct();
    assert_eq!(k.vocab, vec![0u64, 3]);
    assert_eq!(
        k.law,
        Form::Conj(vec![Form::Prop(0), Form::K(1, Box::new(Form::Prop(3)))])
    );
    // One observation entry per agent occurrence, each with the vocabulary.
    assert_eq!(k.obs.len(), 3);
    assert_eq!(k.obs[0], (1, vec![0u64, 3]));
    assert_eq!(k.obs[1], (2, vec![0u64, 3]));
    assert_eq!(k.obs[2], (2, vec![0u64, 3]));
}

#[test]
fn semantics_applies_forgets_before_closing() {
    // `pwd` (0) forwards to `copy` (2), but a forget assertion severs the
    // dependency, so no announcement is made.
    let tm = TypedMeta::new(
        vec![(0, vec![1]), (2, vec![1])],
        vec![],
        vec![Form::K(1, Box::new(Form::Prop(0)))],
        vec![hermit_core::typed::TypedForget::new(0, vec![2, 2])],
    );
    let flow = map_flow(vec![(0, vec![2])]);
    let aflow = tm.announcement_flow(flow);
    let anns: Vec<Announcement> = aflow.announcements(0);
    assert!(anns.is_empty());

    // Without the forget, the announcement of `copy` is made.
    let tm2 = TypedMeta::new(
        vec![(0, vec![1]), (2, vec![1])],
        vec![],
        vec![Form::K(1, Box::new(Form::Prop(0)))],
        vec![],
    );
    let aflow2 = tm2.announcement_flow(map_flow(vec![(0, vec![2])]));
    let anns2: Vec<Announcement> = aflow2.announcements(0);
    assert_eq!(anns2.len(), 1);
    assert_eq!(anns2[0].val, 2);
}

#[test]
fn sort_dedup_canonicalises() {
    assert_eq!(sort_dedup(&vec![3, 1, 3, 2, 1]), vec![1u64, 2, 3]);
    assert_eq!(sort_dedup(&Vec::new()), Vec::<u64>::new());
    assert_eq!(Group::from_members(&vec![5, 5, 4]).members, vec![4u64, 5]);
}

#[test]
fn network_lookup_misses_are_none() {
    let network = one_channel_network(vec![(1, vec![2])]);
    assert!(network.channel(&0).is_none());
    assert_eq!(network.channel(&1).unwrap().listeners.members, vec![2u64]);
}

#[test]
fn later_forget_for_same_subject_supersedes() {
    let flow = map_flow(vec![(0, vec![1]), (0, vec![2])]);
    assert_eq!(flow.forward(0), vec![2u64]);
}

#[test]
fn self_loop_reaches_origin() {
    let closed = Transitive::new(map_flow(vec![(0, vec![0])]));
    assert_eq!(closed.forward(0), vec![0u64]);
}
