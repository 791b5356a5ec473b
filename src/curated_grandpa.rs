//! Curated finality voter set: a periodic, seeded Fisher–Yates shuffle of the
//! voters, driven by on-chain randomness.

use vstd::prelude::*;
use crate::crypto::{blake2_256, blake2_256_of, H256};

verus! {

/// Identity of a finality voter.
pub type AuthorityId = [u8; 32];

/// A finality voter and its voting weight.
pub type Voter = (AuthorityId, u64);

/// Domain tag under which the randomness beacon is queried for shuffling.
pub const SHUFFLE_PHRASE: &'static str = "grandpa_shuffling";

/// Bound every runtime module of the curated set places on its configuration.
pub trait Trait {}

/// Who dispatched a call.
#[derive(Clone, Copy, Debug, PartialEq, Eq)]
pub enum Origin {
    /// The privileged root origin.
    Root,
    /// An ordinary signed account.
    Signed(AuthorityId),
    /// An unsigned call.
    Unsigned,
}

/// Reasons a call on the curated set is refused.
#[derive(Clone, Copy, Debug, PartialEq, Eq, Structural)]
pub enum CurationError {
    /// A privileged call came from a non-root origin.
    BadOrigin,
}

/// Sequence `s` with the items at `a` and `b` exchanged.
pub open spec fn swap_spec<A>(s: Seq<A>, a: int, b: int) -> Seq<A> {
    s.update(a, s[b]).update(b, s[a])
}

/// The little-endian 32-bit integer in `b[off..off + 4]`.
pub open spec fn u32_le_at(b: Seq<u8>, off: int) -> nat {
    (b[off] as nat) + 256 * (b[off + 1] as nat) + 65536 * (b[off + 2] as nat)
        + 16777216 * (b[off + 3] as nat)
}

/// The trailing bytes of the beacon that seed a shuffle of `n` voters:
/// four bytes per voter, or the whole beacon when it is shorter than that.
pub open spec fn seed_source(beacon: Seq<u8>, n: nat) -> Seq<u8> {
    if n * 4 >= beacon.len() {
        beacon
    } else {
        beacon.subrange(beacon.len() - n * 4, beacon.len() as int)
    }
}

/// The seed after `k` rehashes of `s0`.
pub open spec fn nth_seed(s0: Seq<u8>, k: nat) -> Seq<u8>
    decreases k,
{
    if k == 0 {
        s0
    } else {
        blake2_256_of(nth_seed(s0, (k - 1) as nat))
    }
}

/// The index drawn at step `i` of a shuffle of `n` items: four seed bytes at
/// a rotating offset, reduced modulo the number of items still to place.
pub open spec fn pick(n: nat, s0: Seq<u8>, i: nat) -> int {
    (u32_le_at(nth_seed(s0, i / 8), ((i % 8) * 4) as int) % ((n - i) as nat)) as int
}

/// The sequence after the first `i` steps of the seeded Fisher–Yates shuffle:
/// step `i` exchanges the last unplaced item with the one at `pick(.., i)`.
pub open spec fn shuffle_steps<A>(v: Seq<A>, s0: Seq<u8>, i: nat) -> Seq<A>
    decreases i,
{
    if i == 0 {
        v
    } else {
        let prev = shuffle_steps(v, s0, (i - 1) as nat);
        swap_spec(prev, v.len() - i, pick(v.len(), s0, (i - 1) as nat))
    }
}

/// The voters shuffled with the randomness `beacon`.
pub open spec fn shuffled<A>(v: Seq<A>, beacon: Seq<u8>) -> Seq<A> {
    if v.len() == 0 {
        v
    } else {
        shuffle_steps(v, blake2_256_of(seed_source(beacon, v.len())), (v.len() - 1) as nat)
    }
}

/// Whether a rotation is due at `block_number` under `shuffle_period`
/// (a period of zero never rotates).
pub open spec fn rotation_due(shuffle_period: u64, block_number: u64) -> bool {
    shuffle_period != 0 && block_number % shuffle_period == 0
}

/// The voter set in force after finalizing `block_number`.
pub open spec fn voters_after<A>(
    v: Seq<A>,
    beacon: Seq<u8>,
    shuffle_period: u64,
    block_number: u64,
) -> Seq<A> {
    if rotation_due(shuffle_period, block_number) && v.len() > 0 {
        shuffled(v, beacon)
    } else {
        v
    }
}

proof fn lemma_swap_multiset<A>(s: Seq<A>, a: int, b: int)
    requires
        0 <= a < s.len(),
        0 <= b < s.len(),
    ensures
        swap_spec(s, a, b).to_multiset() =~= s.to_multiset(),
        swap_spec(s, a, b).len() == s.len(),
{
    broadcast use
        vstd::seq_lib::to_multiset_update,
        vstd::seq_lib::group_to_multiset_ensures,
        vstd::multiset::group_multiset_axioms,
    ;
    let m = s.to_multiset();
    let s1 = s.update(a, s[b]);
    if a == b {
        assert(s1 =~= s);
        assert(s1.update(b, s[a]) =~= s);
    } else {
        assert(s.contains(s[a]));
        assert(m.count(s[a]) > 0);
        let m1 = m.insert(s[b]).remove(s[a]);
        assert(s1.to_multiset() == m1);
        assert(s1[b] == s[b]);
        assert(s1.update(b, s[a]).to_multiset() == m1.insert(s[a]).remove(s[b]));
        assert(m1.insert(s[a]).remove(s[b]) =~= m);
    }
}

proof fn lemma_steps_multiset<A>(v: Seq<A>, s0: Seq<u8>, i: nat)
    requires
        i < v.len(),
    ensures
        shuffle_steps(v, s0, i).to_multiset() =~= v.to_multiset(),
        shuffle_steps(v, s0, i).len() == v.len(),
    decreases i,
{
    if i > 0 {
        lemma_steps_multiset(v, s0, (i - 1) as nat);
        let prev = shuffle_steps(v, s0, (i - 1) as nat);
        let j = pick(v.len(), s0, (i - 1) as nat);
        assert(0 <= j < v.len() - (i - 1));
        lemma_swap_multiset(prev, v.len() - i, j);
    }
}

/// A shuffle is a permutation: it keeps every voter, with its multiplicity,
/// and adds none.
pub proof fn lemma_shuffle_is_permutation<A>(v: Seq<A>, beacon: Seq<u8>)
    ensures
        shuffled(v, beacon).to_multiset() =~= v.to_multiset(),
        shuffled(v, beacon).len() == v.len(),
{
    if v.len() > 0 {
        lemma_steps_multiset(v, blake2_256_of(seed_source(beacon, v.len())), (v.len() - 1) as nat);
    }
}

/// The voter set after a block depends on the voters, the beacon, the period
/// and the block number alone: equal inputs give the same order.
pub proof fn lemma_rotation_deterministic<A>(
    v1: Seq<A>,
    v2: Seq<A>,
    b1: Seq<u8>,
    b2: Seq<u8>,
    shuffle_period: u64,
    block_number: u64,
)
    requires
        v1 == v2,
        b1 == b2,
    ensures
        voters_after(v1, b1, shuffle_period, block_number) == voters_after(
            v2,
            b2,
            shuffle_period,
            block_number,
        ),
{
}

/// A period of zero, a block number that is not a multiple of the period, or
/// an empty voter set each leave the voters unchanged.
pub proof fn lemma_rotation_noop<A>(
    v: Seq<A>,
    beacon: Seq<u8>,
    shuffle_period: u64,
    block_number: u64,
)
    requires
        shuffle_period == 0 || block_number % shuffle_period != 0 || v.len() == 0,
    ensures
        voters_after(v, beacon, shuffle_period, block_number) == v,
{
}

/// Shuffles `voters` with the randomness `beacon`: the trailing bytes of the
/// beacon are hashed into a seed, and each step of a Fisher–Yates shuffle
/// draws four seed bytes, rehashing the seed once its 32 bytes are used up.
pub fn shuffle_voters(voters: Vec<Voter>, beacon: &[u8]) -> (r: Vec<Voter>)
    ensures
        r@ == shuffled(voters@, beacon@),
{
    let mut voters = voters;
    let ghost v0 = voters@;
    let n = voters.len();
    if n == 0 {
        return voters;
    }
    let seed_len = beacon.len();
    let seed_off: usize = if (n as u128) * 4 >= seed_len as u128 {
        0
    } else {
        seed_len - n * 4
    };
    let source = vstd::slice::slice_subrange(beacon, seed_off, seed_len);
    assert(source@ =~= seed_source(beacon@, n as nat));
    let mut seed: H256 = blake2_256(source);
    let ghost s0 = seed@;
    let mut i: usize = 0;
    while i < n - 1
        invariant
            n == v0.len(),
            n > 0,
            0 <= i <= n - 1,
            voters@ == shuffle_steps(v0, s0, i as nat),
            voters@.len() == n,
            seed@ == nth_seed(s0, (i / 8) as nat),
            s0 == blake2_256_of(seed_source(beacon@, n as nat)),
        decreases n - 1 - i,
    {
        let offset: usize = (i % 8) * 4;
        let remaining: usize = n - i;
        let x: u64 = seed[offset] as u64 + 256 * (seed[offset + 1] as u64) + 65536 * (
        seed[offset + 2] as u64) + 16777216 * (seed[offset + 3] as u64);
        assert(x == u32_le_at(seed@, offset as int));
        let j: usize = (x % (remaining as u64)) as usize;
        assert(j == pick(n as nat, s0, i as nat));
        if offset == 28 {
            seed = blake2_256(vstd::array::array_as_slice(&seed));
            assert((i + 1) / 8 == i / 8 + 1);
        } else {
            assert((i + 1) / 8 == i / 8);
        }
        let a = voters[remaining - 1];
        let b = voters[j];
        voters.set(remaining - 1, b);
        voters.set(j, a);
        proof {
            lemma_steps_multiset(v0, s0, i as nat);
        }
        assert(voters@ =~= shuffle_steps(v0, s0, (i + 1) as nat));
        i = i + 1;
    }
    voters
}

/// The curated voter-set module: its one persisted setting.
#[derive(Clone, Copy, Debug, PartialEq, Eq)]
pub struct CuratedGrandpa {
    /// How often, in blocks, the voter set is shuffled; zero means never.
    pub shuffle_period: u64,
}

impl CuratedGrandpa {
    /// The configured shuffle period.
    pub fn shuffle_period(&self) -> (r: u64)
        ensures
            r == self.shuffle_period,
    {
        self.shuffle_period
    }

    /// Decides the rotation at the finalization of `block_number`: when the
    /// period divides the block number and there are voters, the shuffled set
    /// to schedule (with no delay); otherwise `None`, and the set stays as it is.
    pub fn on_finalize(&self, block_number: u64, voters: Vec<Voter>, beacon: &[u8]) -> (r: Option<
        Vec<Voter>,
    >)
        ensures
            r.is_some() <==> rotation_due(self.shuffle_period, block_number) && voters@.len() > 0,
            r matches Some(w) ==> w@ == shuffled(voters@, beacon@),
            r matches Some(w) ==> w@ == voters_after(
                voters@,
                beacon@,
                self.shuffle_period,
                block_number,
            ),
    {
        let shuffle_period = self.shuffle_period;
        if shuffle_period == 0 {
            return None;
        }
        if block_number % shuffle_period != 0 {
            return None;
        }
        if voters.len() == 0 {
            return None;
        }
        Some(shuffle_voters(voters, beacon))
    }

    /// Changes the voter set by a privileged call: the set to schedule (with
    /// no delay), or `BadOrigin` when the caller is not root.
    pub fn set_voters(origin: Origin, voters: Vec<Voter>) -> (r: Result<Vec<Voter>, CurationError>)
        ensures
            r matches Ok(w) ==> origin == Origin::Root && w@ == voters@,
            r matches Err(e) ==> origin != Origin::Root && e == CurationError::BadOrigin,
    {
        match origin {
            Origin::Root => Ok(voters),
            _ => Err(CurationError::BadOrigin),
        }
    }
}

} // verus!
