//! A flow-aware epistemic satisfaction engine: a modal formula language
//! with vocabulary extraction, an algebra of dissemination flows with a
//! verified transitive closure, a network of announcement channels, the
//! elaboration of raw assertions against an agent context, and the rewrite
//! of a formula under the announcements its vocabulary triggers, before an
//! abstract knowledge-structure oracle decides it.

pub mod elab;
pub mod flow;
pub mod form;
pub mod network;
pub mod typed;
pub mod untyped;

pub use form::Semantics;
pub use network::{AnnouncementFlow, Network};
pub use typed::TypedMeta;
pub use untyped::{UntypedForget, UntypedForm, UntypedMeta, UntypedRef};

use vstd::prelude::*;

verus! {

/// An agent identifier.
pub type Agent = u64;

/// A location in the dissemination graph; also serves as a proposition identifier.
pub type Location = u64;

/// The number of distinct `u64` values bounds the length of any duplicate-free
/// sequence of locations.
pub proof fn lemma_no_dup_u64_len(s: Seq<u64>)
    requires
        s.no_duplicates(),
    ensures
        s.len() <= 0x1_0000_0000_0000_0000,
{
    let f = |x: u64| x as int;
    assert(vstd::relations::injective(f)) by {
        assert(forall|a: u64, b: u64| #[trigger] f(a) == #[trigger] f(b) ==> a == b);
    }
    s.lemma_no_duplicates_injective(f);
    let t = s.map_values(f);
    t.unique_seq_to_set();
    let range = vstd::set_lib::set_int_range(0, 0x1_0000_0000_0000_0000);
    vstd::set_lib::lemma_int_range(0, 0x1_0000_0000_0000_0000);
    assert(t.to_set().subset_of(range)) by {
        assert(forall|y: int| #[trigger] t.to_set().contains(y) ==> t.contains(y));
        assert(forall|i: int| 0 <= i < t.len() ==> 0 <= #[trigger] t[i] < 0x1_0000_0000_0000_0000);
    }
    vstd::set_lib::lemma_len_subset(t.to_set(), range);
}

} // verus!
