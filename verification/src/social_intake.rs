//! The decisions of social intake: duplicate suppression over a bounded ring of
//! `(author, content)` keys, the quality a call corroborates at, and where a
//! call for one named mint is routed.
//!
//! Decoding posts, the coordination screen, the earned-quality and source
//! ledgers and the attention field are held elsewhere; what they decide arrives
//! here as plain values.

use vstd::prelude::*;

verus! {

/// The bound on remembered `(author, content)` keys.
pub const SOCIAL_SEEN_CAP: usize = 8_192;

/// The remembered `(author, content hash)` keys, oldest first.
pub struct SeenRing {
    ring: Vec<(u64, u64)>,
}

/// The ring after a fresh key: the oldest key leaves first when the ring is full.
pub open spec fn ring_remember(ring: Seq<(u64, u64)>, key: (u64, u64)) -> Seq<(u64, u64)> {
    if ring.len() >= SOCIAL_SEEN_CAP {
        ring.drop_first().push(key)
    } else {
        ring.push(key)
    }
}

impl SeenRing {
    /// The remembered keys, oldest first.
    pub closed spec fn keys(&self) -> Seq<(u64, u64)> {
        self.ring@
    }

    /// Well-formedness: distinct keys, at most `SOCIAL_SEEN_CAP` of them.
    pub open spec fn wf(&self) -> bool {
        &&& self.keys().len() <= SOCIAL_SEEN_CAP
        &&& forall|i: int, j: int| 0 <= i < j < self.keys().len() ==> self.keys()[i] != self.keys()[j]
    }

    /// An empty ring.
    pub fn new() -> (r: Self)
        ensures
            r.wf(),
            r.keys() == Seq::<(u64, u64)>::empty(),
    {
        SeenRing { ring: Vec::new() }
    }

    /// Number of remembered keys.
    pub fn len(&self) -> (r: usize)
        ensures
            r == self.keys().len(),
    {
        self.ring.len()
    }

    /// Whether the post `(author, content)` is new: a remembered key is a
    /// duplicate and changes nothing; a new key is remembered, evicting the
    /// oldest key when the ring is full.
    pub fn note_post(&mut self, author_id: u64, content_hash: u64) -> (fresh: bool)
        requires
            old(self).wf(),
        ensures
            final(self).wf(),
            fresh == !old(self).keys().contains((author_id, content_hash)),
            fresh ==> final(self).keys() == ring_remember(old(self).keys(), (author_id, content_hash)),
            !fresh ==> final(self).keys() == old(self).keys(),
    {
        let key = (author_id, content_hash);
        let mut i: usize = 0;
        while i < self.ring.len()
            invariant
                i <= self.ring@.len(),
                self.ring@ == old(self).keys(),
                old(self).wf(),
                key == (author_id, content_hash),
                forall|j: int| 0 <= j < i ==> self.ring@[j] != key,
            decreases self.ring@.len() - i,
        {
            let k = self.ring[i];
            if k.0 == author_id && k.1 == content_hash {
                assert(k == self.ring@[i as int]);
                assert(k == key);
                assert(old(self).keys().contains(key));
                return false;
            }
            assert(self.ring@[i as int] != key);
            i += 1;
        }
        assert(!old(self).keys().contains(key));
        let ghost before = self.ring@;
        if self.ring.len() >= SOCIAL_SEEN_CAP {
            self.ring.remove(0);
            assert(self.ring@ =~= before.drop_first());
        }
        self.ring.push(key);
        assert forall|a: int, b: int| 0 <= a < b < self.keys().len() implies self.keys()[a] != self.keys()[b] by {
            if b == self.keys().len() - 1 {
                let src = if before.len() >= SOCIAL_SEEN_CAP { a + 1 } else { a };
                assert(self.keys()[a] == before[src]);
            } else if before.len() >= SOCIAL_SEEN_CAP {
                assert(self.keys()[a] == before[a + 1]);
                assert(self.keys()[b] == before[b + 1]);
            }
        }
        true
    }
}

/// The quality a call corroborates at: zero for coordinated copy-paste content,
/// else the source's earned rate, else the quality ledger's rate.
pub open spec fn spec_call_quality(coordinated: bool, earned_bps: Option<u32>, ledger_bps: u32) -> u32 {
    if coordinated {
        0
    } else {
        match earned_bps {
            Some(q) => q,
            None => ledger_bps,
        }
    }
}

/// The quality a call corroborates at (see `spec_call_quality`).
pub fn call_quality(coordinated: bool, earned_bps: Option<u32>, ledger_bps: u32) -> (r: u32)
    ensures
        r == spec_call_quality(coordinated, earned_bps, ledger_bps),
{
    if coordinated {
        0
    } else {
        match earned_bps {
            Some(q) => q,
            None => ledger_bps,
        }
    }
}

/// Where a call for one named mint goes.
#[derive(Clone, Copy, Debug, PartialEq, Eq, Structural)]
pub enum CallRoute {
    /// A designated sell call on a held position: raise its exit pressure only.
    ExitPressure,
    /// A designated sell call on a mint not held: nothing at all.
    Inert,
    /// A paid alpha-room call: the alpha discovery lane.
    AlphaLane,
    /// Any other call: the social caller lane.
    SocialLane,
}

/// Route a call: a bearish designated call never ranks, amplifies or
/// authorizes (exit pressure on a held position, else nothing); an alpha-room
/// call goes to the alpha lane; everything else to the social lane.
pub open spec fn spec_route_call(bearish_exit: bool, alpha_room: bool, held: bool) -> CallRoute {
    if bearish_exit {
        if held { CallRoute::ExitPressure } else { CallRoute::Inert }
    } else if alpha_room {
        CallRoute::AlphaLane
    } else {
        CallRoute::SocialLane
    }
}

/// Route a call for one named mint (see `spec_route_call`).
pub fn route_call(bearish_exit: bool, alpha_room: bool, held: bool) -> (r: CallRoute)
    ensures
        r == spec_route_call(bearish_exit, alpha_room, held),
{
    if bearish_exit {
        if held { CallRoute::ExitPressure } else { CallRoute::Inert }
    } else if alpha_room {
        CallRoute::AlphaLane
    } else {
        CallRoute::SocialLane
    }
}

/// A sell call never feeds discovery, and coordinated content corroborates at
/// zero whatever the source has earned.
pub proof fn lemma_sell_calls_never_rank(bearish_exit: bool, alpha_room: bool, held: bool, earned_bps: Option<u32>, ledger_bps: u32)
    ensures
        bearish_exit ==> spec_route_call(bearish_exit, alpha_room, held) != CallRoute::AlphaLane
            && spec_route_call(bearish_exit, alpha_room, held) != CallRoute::SocialLane,
        spec_call_quality(true, earned_bps, ledger_bps) == 0,
{
}

} // verus!
