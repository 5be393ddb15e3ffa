use vstd::prelude::*;
use rand::rngs::StdRng;
use rand::seq::SliceRandom;
use rand::SeedableRng;
use crate::shapes::NUM_KINDS;

verus! {

#[verifier::external_type_specification]
#[verifier::external_body]
pub struct ExStdRng(StdRng);

/// Relies on rand's `SeedableRng::seed_from_u64` to build a generator from a
/// 64-bit seed.
#[verifier::external_body]
fn seeded_rng(seed: u64) -> StdRng {
    StdRng::seed_from_u64(seed)
}

/// Relies on rand's `SliceRandom::shuffle`, a Fisher-Yates shuffle that
/// only swaps elements: the result is a permutation of the input.
#[verifier::external_body]
fn shuffle_in_place(pool: &mut Vec<usize>, rng: &mut StdRng)
    ensures
        final(pool)@.to_multiset() == old(pool)@.to_multiset(),
{
    pool.shuffle(rng);
}

/// Copies of each kind in one refill of the bag.
pub const COPIES: usize = 7;

/// Size of one refill of the bag: `COPIES` of each kind.
pub const CYCLE_LEN: usize = 49;

/// In a complete cycle each kind appears `COPIES` times and nothing else does.
pub open spec fn cycle_count(k: usize) -> nat {
    if k < NUM_KINDS { COPIES as nat } else { 0 }
}

/// A piece provider that deals kinds from a pool of `CYCLE_LEN` entries,
/// `COPIES` of each kind shuffled together, refilled when it runs out.
pub struct BagProvider {
    pub pool: Vec<usize>,
    pub rng: StdRng,
    /// The kinds dealt since the pool was last refilled.
    pub drawn: Ghost<Seq<usize>>,
}

impl BagProvider {
    /// Either nothing was dealt yet, or what was dealt in this cycle and
    /// what is left in the pool together hold each kind `COPIES` times.
    pub open spec fn wf(&self) -> bool {
        ||| (self.pool@.len() == 0 && self.drawn@.len() == 0)
        ||| (self.pool@.len() + self.drawn@.len() == CYCLE_LEN && forall|k: usize|
            #[trigger] self.drawn@.to_multiset().count(k) + self.pool@.to_multiset().count(k)
                == cycle_count(k))
    }

    /// A provider with an empty pool and a generator seeded by `seed`.
    pub fn new(seed: u64) -> (p: BagProvider)
        ensures
            p.wf(),
            p.pool@.len() == 0,
            p.drawn@.len() == 0,
    {
        BagProvider { pool: Vec::new(), rng: seeded_rng(seed), drawn: Ghost(Seq::empty()) }
    }

    /// Refills the pool with `COPIES` of each kind, in order.
    fn fill() -> (pool: Vec<usize>)
        ensures
            pool@.len() == CYCLE_LEN,
            forall|k: usize| #[trigger] pool@.to_multiset().count(k) == cycle_count(k),
    {
        let mut pool: Vec<usize> = Vec::new();
        let mut b: usize = 0;
        proof {
            broadcast use vstd::seq_lib::group_to_multiset_ensures;
            assert(pool@ =~= Seq::<usize>::empty());
        }
        while b < COPIES
            invariant
                b <= COPIES,
                pool@.len() == b * NUM_KINDS,
                forall|k: usize|
                    #[trigger] pool@.to_multiset().count(k) == if k < NUM_KINDS {
                        b as nat
                    } else {
                        0
                    },
            decreases COPIES - b,
        {
            let mut k: usize = 0;
            while k < NUM_KINDS
                invariant
                    b < COPIES,
                    k <= NUM_KINDS,
                    pool@.len() == b * NUM_KINDS + k,
                    forall|j: usize|
                        #[trigger] pool@.to_multiset().count(j) == if j < k {
                            b as nat + 1
                        } else if j < NUM_KINDS {
                            b as nat
                        } else {
                            0
                        },
                decreases NUM_KINDS - k,
            {
                proof {
                    pool@.to_multiset_ensures();
                }
                pool.push(k);
                k += 1;
            }
            b += 1;
        }
        pool
    }

    /// Deals the next kind, refilling and shuffling the pool first when it
    /// is empty.
    pub fn next(&mut self) -> (k: usize)
        requires
            old(self).wf(),
        ensures
            final(self).wf(),
            k < NUM_KINDS,
            old(self).pool@.len() == 0 ==> final(self).drawn@ == seq![k] && final(self).pool@.len()
                == CYCLE_LEN - 1,
            old(self).pool@.len() > 0 ==> final(self).drawn@ == old(self).drawn@.push(k)
                && final(self).pool@ == old(self).pool@.drop_last() && k == old(self).pool@.last(),
    {
        broadcast use vstd::seq_lib::group_to_multiset_ensures;

        if self.pool.len() == 0 {
            let mut fresh = Self::fill();
            let ghost filled = fresh@;
            shuffle_in_place(&mut fresh, &mut self.rng);
            proof {
                filled.to_multiset_ensures();
                fresh@.to_multiset_ensures();
            }
            self.pool = fresh;
            self.drawn = Ghost(Seq::empty());
            assert(self.drawn@.to_multiset() =~= vstd::multiset::Multiset::empty());
        }
        let ghost before = self.pool@;
        let ghost drawn_before = self.drawn@;
        assert(before.len() > 0);
        let k = self.pool.pop().unwrap();
        proof {
            assert(before == self.pool@.push(k));
            self.pool@.to_multiset_ensures();
            self.drawn@.to_multiset_ensures();
            assert(before.to_multiset().count(k) > 0);
            assert(drawn_before.to_multiset().count(k) + before.to_multiset().count(k)
                == cycle_count(k));
            self.drawn@ = self.drawn@.push(k);
            assert(self.drawn@ == drawn_before.push(k));
            drawn_before.to_multiset_ensures();
            assert forall|j: usize|
                #[trigger] self.drawn@.to_multiset().count(j) + self.pool@.to_multiset().count(j)
                    == cycle_count(j) by {
                assert(drawn_before.to_multiset().count(j) + before.to_multiset().count(j)
                    == cycle_count(j));
            }
        }
        k
    }
}

/// A finished cycle: when the pool is empty again after dealing, every
/// kind was dealt exactly `COPIES` times since the last refill.
pub proof fn lemma_bag_cycle(p: &BagProvider)
    requires
        p.wf(),
        p.pool@.len() == 0,
        p.drawn@.len() > 0,
    ensures
        p.drawn@.len() == CYCLE_LEN,
        forall|k: usize| k < NUM_KINDS ==> #[trigger] p.drawn@.to_multiset().count(k) == COPIES,
{
    broadcast use vstd::seq_lib::group_to_multiset_ensures;

    assert(p.pool@ =~= Seq::<usize>::empty());
}

/// Multiplier of the linear congruential generator.
pub const LCG_A: u64 = 1103515245;

/// Increment of the linear congruential generator.
pub const LCG_C: u64 = 12345;

/// One step of the generator: `(A * state + C) mod 2^32`.
pub open spec fn lcg_step(state: u32) -> u32 {
    ((LCG_A * state + LCG_C) % 0x1_0000_0000) as u32
}

/// The kind read from a state: its middle 15 bits, modulo 7.
pub open spec fn lcg_kind(state: u32) -> usize {
    (((state >> 16u32) & 0x7fffu32) % 7) as usize
}

/// The state after `n` steps from `state`.
pub open spec fn lcg_state_after(state: u32, n: nat) -> u32
    decreases n,
{
    if n == 0 {
        state
    } else {
        lcg_step(lcg_state_after(state, (n - 1) as nat))
    }
}

/// The first `n` kinds dealt from `state`.
pub open spec fn lcg_kinds(state: u32, n: nat) -> Seq<usize>
    decreases n,
{
    if n == 0 {
        Seq::empty()
    } else {
        lcg_kinds(state, (n - 1) as nat).push(lcg_kind(lcg_state_after(state, n)))
    }
}

/// A piece provider driven by a 32-bit linear congruential generator, for
/// reproducible games.
#[derive(Clone, Copy, Debug, PartialEq, Eq)]
pub struct LcgProvider {
    pub state: u32,
}

impl LcgProvider {
    /// A provider whose state is the low 32 bits of `seed`.
    pub fn new(seed: u64) -> (p: LcgProvider)
        ensures
            p.state == seed as u32,
    {
        LcgProvider { state: seed as u32 }
    }

    /// Steps the generator and deals the kind read from the new state.
    pub fn next(&mut self) -> (k: usize)
        ensures
            final(self).state == lcg_step(old(self).state),
            k == lcg_kind(final(self).state),
            k < NUM_KINDS,
    {
        let s = (LCG_A * self.state as u64 + LCG_C) % 0x1_0000_0000;
        self.state = s as u32;
        ((self.state >> 16u32) & 0x7fff) as usize % 7
    }
}

/// Two providers that start in the same state deal the same kinds, for any
/// number of draws.
pub proof fn lemma_lcg_reproducible(a: LcgProvider, b: LcgProvider, n: nat)
    requires
        a.state == b.state,
    ensures
        lcg_kinds(a.state, n) == lcg_kinds(b.state, n),
{
}

/// A source of piece kinds, chosen when a game is set up.
pub enum Provider {
    Bag(BagProvider),
    Lcg(LcgProvider),
}

/// What one draw does to a provider.
pub open spec fn dealt(before: Provider, after: Provider, k: usize) -> bool {
    match before {
        Provider::Lcg(a) => after is Lcg && after->Lcg_0.state == lcg_step(a.state) && k
            == lcg_kind(after->Lcg_0.state),
        Provider::Bag(a) => after is Bag && {
            let b = after->Bag_0;
            &&& a.pool@.len() == 0 ==> b.drawn@ == seq![k] && b.pool@.len() == CYCLE_LEN - 1
            &&& a.pool@.len() > 0 ==> b.drawn@ == a.drawn@.push(k) && b.pool@ == a.pool@.drop_last()
                && k == a.pool@.last()
        },
    }
}

impl Provider {
    pub open spec fn wf(&self) -> bool {
        match self {
            Provider::Bag(b) => b.wf(),
            Provider::Lcg(_) => true,
        }
    }

    /// Deals the next piece kind.
    pub fn next(&mut self) -> (k: usize)
        requires
            old(self).wf(),
        ensures
            final(self).wf(),
            k < NUM_KINDS,
            dealt(*old(self), *final(self), k),
    {
        match self {
            Provider::Bag(b) => b.next(),
            Provider::Lcg(l) => l.next(),
        }
    }
}

} // verus!
