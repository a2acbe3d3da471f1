//! The decision journal: a canonical, hashable record of what the engine did.
//!
//! Every material decision is folded, in a fixed integer encoding, into a rolling
//! FNV-1a/64 hash. The digest is a running 64-bit fold over every byte ever folded,
//! so the rolling digest equals a one-shot FNV-1a over the whole byte stream; only
//! the most recent `RECENT_CAP` decisions are retained for inspection.

use std::collections::VecDeque;

use vstd::prelude::*;

verus! {

/// FNV-1a/64 offset basis.
pub const FNV_OFFSET_BASIS: u64 = 0xcbf2_9ce4_8422_2325;

/// FNV-1a/64 prime.
pub const FNV_PRIME: u64 = 0x0000_0100_0000_01b3;

/// How many recent decisions are retained for inspection. The digest still covers
/// every decision, retained or not.
pub const RECENT_CAP: usize = 4_096;

/// One FNV-1a step: xor the byte in, then multiply by the prime modulo 2^64.
pub open spec fn fnv_step(h: u64, b: u8) -> u64 {
    vstd::wrapping::u64_specs::wrapping_mul(h ^ (b as u64), FNV_PRIME)
}

/// FNV-1a folded over `bytes`, left to right, from the state `h`.
pub open spec fn fnv_fold(h: u64, bytes: Seq<u8>) -> u64
    decreases bytes.len(),
{
    if bytes.len() == 0 {
        h
    } else {
        fnv_step(fnv_fold(h, bytes.drop_last()), bytes.last())
    }
}

/// The one-shot FNV-1a/64 hash of a byte stream.
pub open spec fn fnv1a_64(bytes: Seq<u8>) -> u64 {
    fnv_fold(FNV_OFFSET_BASIS, bytes)
}

/// The `n` low-order bytes of `v`, least significant first.
pub open spec fn le_bytes(v: nat, n: nat) -> Seq<u8>
    decreases n,
{
    if n == 0 {
        Seq::empty()
    } else {
        seq![(v % 256) as u8] + le_bytes(v / 256, (n - 1) as nat)
    }
}

/// A byte field framed by its length as a little-endian `u64`.
pub open spec fn framed(bytes: Seq<u8>) -> Seq<u8> {
    le_bytes(bytes.len(), 8) + bytes
}

/// A single journaled decision, in the order the engine took it.
#[derive(Clone, Copy, Debug, PartialEq, Eq)]
pub enum Decision {
    /// A candidate was promoted for entry at a given rank.
    Promoted { mint: [u8; 32], lane: u8, rank: u64 },
    /// Entry admitted a candidate at a chosen size.
    Admitted { mint: [u8; 32], size_lamports: u64 },
    /// Entry rejected a candidate; `reason` is a stable small code.
    Rejected { mint: [u8; 32], reason: u8 },
    /// A paper scalp realized a signed net PnL; `reason` is the stable exit code
    /// that fired the exit (0 = unknown).
    Filled { mint: [u8; 32], net_pnl_lamports: i128, reason: u8 },
    /// A reflection pass moved a lane weight.
    Reweighted { lane: u8, before_bp: u32, after_bp: u32 },
}

/// The stable one-byte tag of each variant.
pub open spec fn decision_tag(d: Decision) -> u8 {
    match d {
        Decision::Promoted { .. } => 1,
        Decision::Admitted { .. } => 2,
        Decision::Rejected { .. } => 3,
        Decision::Filled { .. } => 4,
        Decision::Reweighted { .. } => 5,
    }
}

/// The canonical byte encoding of a decision: its tag, then its fields in order,
/// byte fields framed by their length, integers little-endian, the signed PnL as
/// its sixteen two's-complement bytes.
pub open spec fn decision_encoding(d: Decision) -> Seq<u8> {
    seq![decision_tag(d)] + match d {
        Decision::Promoted { mint, lane, rank } => framed(mint@) + seq![lane] + le_bytes(
            rank as nat,
            8,
        ),
        Decision::Admitted { mint, size_lamports } => framed(mint@) + le_bytes(
            size_lamports as nat,
            8,
        ),
        Decision::Rejected { mint, reason } => framed(mint@) + seq![reason],
        Decision::Filled { mint, net_pnl_lamports, reason } => framed(mint@) + framed(
            le_bytes((net_pnl_lamports as u128) as nat, 16),
        ) + seq![reason],
        Decision::Reweighted { lane, before_bp, after_bp } => seq![lane] + le_bytes(
            before_bp as nat,
            8,
        ) + le_bytes(after_bp as nat, 8),
    }
}

/// The concatenated encodings of a stream of decisions, in order.
pub open spec fn stream_encoding(ds: Seq<Decision>) -> Seq<u8>
    decreases ds.len(),
{
    if ds.len() == 0 {
        Seq::empty()
    } else {
        stream_encoding(ds.drop_last()) + decision_encoding(ds.last())
    }
}

/// The decisions a journal retains: the last `RECENT_CAP` of its history, oldest
/// first.
pub open spec fn retained(history: Seq<Decision>) -> Seq<Decision> {
    if history.len() <= RECENT_CAP {
        history
    } else {
        history.subrange(history.len() - RECENT_CAP, history.len() as int)
    }
}

/// Folding two streams one after the other is folding their concatenation: the
/// rolling digest equals the one-shot hash over everything folded.
pub proof fn lemma_fnv_fold_append(h: u64, a: Seq<u8>, b: Seq<u8>)
    ensures
        fnv_fold(h, a + b) == fnv_fold(fnv_fold(h, a), b),
    decreases b.len(),
{
    if b.len() == 0 {
        assert(a + b =~= a);
    } else {
        lemma_fnv_fold_append(h, a, b.drop_last());
        assert((a + b).drop_last() =~= a + b.drop_last());
        assert((a + b).last() == b.last());
    }
}

/// The encoding of a stream extended by one decision is the old encoding followed
/// by that decision's own.
pub proof fn lemma_stream_encoding_push(ds: Seq<Decision>, d: Decision)
    ensures
        stream_encoding(ds.push(d)) == stream_encoding(ds) + decision_encoding(d),
{
    assert(ds.push(d).drop_last() =~= ds);
}

/// Every encoding starts with its variant's tag, so two decisions of different
/// variants never share an encoding.
pub proof fn lemma_encoding_is_tagged(d: Decision)
    ensures
        decision_encoding(d).len() > 0,
        decision_encoding(d)[0] == decision_tag(d),
{
}

/// Append the `n` low bytes of `v`, least significant first.
fn push_le(buf: &mut Vec<u8>, v: u128, n: usize)
    requires
        n <= 16,
    ensures
        final(buf)@ == old(buf)@ + le_bytes(v as nat, n as nat),
{
    let ghost start = buf@;
    let mut x: u128 = v;
    let mut i: usize = 0;
    while i < n
        invariant
            i <= n,
            buf@ + le_bytes(x as nat, (n - i) as nat) == start + le_bytes(v as nat, n as nat),
        decreases n - i,
    {
        let ghost before = buf@;
        let ghost xv = x as nat;
        let ghost k = (n - i) as nat;
        assert(le_bytes(xv, k) == seq![(xv % 256) as u8] + le_bytes(xv / 256, (k - 1) as nat));
        buf.push((x % 256) as u8);
        x = x / 256;
        i = i + 1;
        assert(buf@ + le_bytes(x as nat, (n - i) as nat) =~= before + le_bytes(xv, k));
    }
}


/// `le_bytes` yields exactly `n` bytes.
proof fn lemma_le_bytes_len(v: nat, n: nat)
    ensures
        le_bytes(v, n).len() == n,
    decreases n,
{
    if n > 0 {
        lemma_le_bytes_len(v / 256, (n - 1) as nat);
    }
}

/// Append `v` as eight little-endian bytes.
fn push_u64(buf: &mut Vec<u8>, v: u64)
    ensures
        final(buf)@ == old(buf)@ + le_bytes(v as nat, 8),
{
    push_le(buf, v as u128, 8);
}

/// Append a byte field framed by its length.
fn push_bytes(buf: &mut Vec<u8>, bytes: &[u8])
    ensures
        final(buf)@ == old(buf)@ + framed(bytes@),
{
    let ghost start = buf@;
    push_u64(buf, bytes.len() as u64);
    let ghost mid = buf@;
    let mut i: usize = 0;
    while i < bytes.len()
        invariant
            i <= bytes@.len(),
            buf@ == mid + bytes@.subrange(0, i as int),
        decreases bytes@.len() - i,
    {
        buf.push(bytes[i]);
        i = i + 1;
        assert(buf@ =~= mid + bytes@.subrange(0, i as int));
    }
    assert(bytes@.subrange(0, bytes@.len() as int) =~= bytes@);
    assert(buf@ =~= start + framed(bytes@));
}

impl Decision {
    /// A stable one-byte tag so the encoding is unambiguous across variants.
    fn tag(&self) -> (t: u8)
        ensures
            t == decision_tag(*self),
    {
        match self {
            Decision::Promoted { .. } => 1,
            Decision::Admitted { .. } => 2,
            Decision::Rejected { .. } => 3,
            Decision::Filled { .. } => 4,
            Decision::Reweighted { .. } => 5,
        }
    }

    /// Encode into a reusable scratch buffer, replacing its contents.
    fn encode(&self, buf: &mut Vec<u8>)
        ensures
            final(buf)@ == decision_encoding(*self),
    {
        buf.clear();
        buf.push(self.tag());
        let ghost head = buf@;
        match *self {
            Decision::Promoted { mint, lane, rank } => {
                push_bytes(buf, mint.as_slice());
                buf.push(lane);
                push_u64(buf, rank);
            },
            Decision::Admitted { mint, size_lamports } => {
                push_bytes(buf, mint.as_slice());
                push_u64(buf, size_lamports);
            },
            Decision::Rejected { mint, reason } => {
                push_bytes(buf, mint.as_slice());
                buf.push(reason);
            },
            Decision::Filled { mint, net_pnl_lamports, reason } => {
                push_bytes(buf, mint.as_slice());
                let bits: u128 = net_pnl_lamports as u128;
                proof {
                    lemma_le_bytes_len(bits as nat, 16);
                }
                push_u64(buf, 16);
                push_le(buf, bits, 16);
                buf.push(reason);
            },
            Decision::Reweighted { lane, before_bp, after_bp } => {
                buf.push(lane);
                push_u64(buf, before_bp as u64);
                push_u64(buf, after_bp as u64);
            },
        }
        assert(buf@ =~= decision_encoding(*self));
    }
}

/// An append-only journal with a rolling canonical hash and bounded retention.
#[derive(Clone)]
pub struct DecisionJournal {
    /// Rolling FNV-1a state over every byte ever folded.
    hash: u64,
    /// Total decisions recorded (not just retained), saturating.
    count: u64,
    /// The most recent decisions, capped at `RECENT_CAP`, oldest first.
    recent: VecDeque<Decision>,
    /// Reused encoding scratch.
    scratch: Vec<u8>,
    /// Every byte folded into the digest, in order.
    folded: Ghost<Seq<u8>>,
    /// Every decision recorded, in order.
    history: Ghost<Seq<Decision>>,
}

impl DecisionJournal {
    /// Every byte folded into the digest so far: seeds and decision encodings, in
    /// the order they were folded.
    pub closed spec fn hashed_bytes(&self) -> Seq<u8> {
        self.folded@
    }

    /// Every decision recorded so far, in order.
    pub closed spec fn decisions(&self) -> Seq<Decision> {
        self.history@
    }

    /// The journal's invariant: the digest is the fold of everything folded, the
    /// count is the saturated history length, and the retained window is the tail
    /// of the history.
    pub closed spec fn wf(&self) -> bool {
        &&& self.hash == fnv1a_64(self.folded@)
        &&& self.count == (if self.history@.len() <= u64::MAX {
            self.history@.len()
        } else {
            u64::MAX as nat
        })
        &&& self.recent@ == retained(self.history@)
    }

    /// A fresh, empty journal.
    pub fn new() -> (j: Self)
        ensures
            j.wf(),
            j.decisions() == Seq::<Decision>::empty(),
            j.hashed_bytes() == Seq::<u8>::empty(),
    {
        DecisionJournal {
            hash: FNV_OFFSET_BASIS,
            count: 0,
            recent: VecDeque::new(),
            scratch: Vec::with_capacity(64),
            folded: Ghost(Seq::empty()),
            history: Ghost(Seq::empty()),
        }
    }

    /// Fold `bytes` into the running hash, one byte at a time.
    fn fold_bytes(&mut self, bytes: &Vec<u8>)
        requires
            old(self).wf(),
        ensures
            final(self).wf(),
            final(self).folded@ == old(self).folded@ + bytes@,
            final(self).history@ == old(self).history@,
            final(self).recent@ == old(self).recent@,
            final(self).count == old(self).count,
    {
        let ghost start = self.folded@;
        let mut i: usize = 0;
        while i < bytes.len()
            invariant
                i <= bytes@.len(),
                self.folded@ == start + bytes@.subrange(0, i as int),
                self.hash == fnv1a_64(self.folded@),
                self.history@ == old(self).history@,
                self.recent@ == old(self).recent@,
                self.count == old(self).count,
                old(self).wf(),
            decreases bytes@.len() - i,
        {
            let b = bytes[i];
            let ghost prev = self.folded@;
            self.hash = (self.hash ^ (b as u64)).wrapping_mul(FNV_PRIME);
            self.folded = Ghost(prev.push(b));
            i = i + 1;
            assert(self.folded@.drop_last() =~= prev);
            assert(self.folded@ =~= start + bytes@.subrange(0, i as int));
        }
        assert(bytes@.subrange(0, bytes@.len() as int) =~= bytes@);
    }

    /// Fold a seed (such as a configuration hash) into the rolling digest, as its
    /// eight little-endian bytes. Meant to be called once, before any decision.
    pub fn seed(&mut self, seed: u64)
        requires
            old(self).wf(),
        ensures
            final(self).wf(),
            final(self).hashed_bytes() == old(self).hashed_bytes() + le_bytes(seed as nat, 8),
            final(self).decisions() == old(self).decisions(),
    {
        let mut bytes: Vec<u8> = Vec::new();
        push_u64(&mut bytes, seed);
        self.fold_bytes(&bytes);
    }

    /// Append a decision: fold its encoding into the rolling digest and retain it,
    /// evicting the oldest once `RECENT_CAP` are retained.
    pub fn record(&mut self, d: Decision)
        requires
            old(self).wf(),
        ensures
            final(self).wf(),
            final(self).hashed_bytes() == old(self).hashed_bytes() + decision_encoding(d),
            final(self).decisions() == old(self).decisions().push(d),
    {
        let mut scratch: Vec<u8> = Vec::new();
        std::mem::swap(&mut scratch, &mut self.scratch);
        d.encode(&mut scratch);
        self.fold_bytes(&scratch);
        self.scratch = scratch;

        let ghost h = self.history@;
        if self.recent.len() == RECENT_CAP {
            self.recent.pop_front();
        }
        self.recent.push_back(d);
        self.count = self.count.saturating_add(1);
        self.history = Ghost(h.push(d));
        assert(self.recent@ =~= retained(self.history@));
    }

    /// Total number of decisions recorded over the journal's life (saturating).
    pub fn len(&self) -> (n: u64)
        requires
            self.wf(),
        ensures
            n == (if self.decisions().len() <= u64::MAX {
                self.decisions().len()
            } else {
                u64::MAX as nat
            }),
    {
        self.count
    }

    /// Whether any decision has been recorded.
    pub fn is_empty(&self) -> (b: bool)
        requires
            self.wf(),
        ensures
            b == (self.decisions().len() == 0),
    {
        self.count == 0
    }

    /// The most recent decisions retained (up to `RECENT_CAP`), oldest first.
    pub fn recent(&self) -> (v: Vec<Decision>)
        requires
            self.wf(),
        ensures
            v@ == retained(self.decisions()),
    {
        let mut v: Vec<Decision> = Vec::new();
        let mut i: usize = 0;
        while i < self.recent.len()
            invariant
                i <= self.recent@.len(),
                v@ == self.recent@.subrange(0, i as int),
            decreases self.recent@.len() - i,
        {
            v.push(self.recent[i]);
            i = i + 1;
            assert(v@ =~= self.recent@.subrange(0, i as int));
        }
        assert(self.recent@.subrange(0, self.recent@.len() as int) =~= self.recent@);
        v
    }

    /// The canonical FNV-1a digest over everything folded: the one-shot hash of
    /// the seed bytes and decision encodings, in order.
    pub fn digest(&self) -> (h: u64)
        requires
            self.wf(),
        ensures
            h == fnv1a_64(self.hashed_bytes()),
    {
        self.hash
    }
}

impl Default for DecisionJournal {
    fn default() -> (j: Self)
        ensures
            j.wf(),
            j.decisions() == Seq::<Decision>::empty(),
            j.hashed_bytes() == Seq::<u8>::empty(),
    {
        DecisionJournal::new()
    }
}

} // verus!
