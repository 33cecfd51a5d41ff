//! A Mersenne-twister style pseudorandom generator.
//!
//! The state recurrences below are mirrored one for one by spec functions,
//! so the contract of `next_u32` pins the exact output word for any state.

use vstd::prelude::*;

use crate::prng::PRNG;

verus! {

pub const MT_STATE_LEN: usize = 624;

/// The tempering transform applied to a raw state word.
pub open spec fn spec_temper(y0: u32) -> u32 {
    let y1 = y0 ^ (y0 >> 11);
    let y2 = y1 ^ ((y1 << 7) & 0x9D2C5680);
    let y3 = y2 ^ ((y2 << 15) & 0xEFC60000);
    y3 ^ (y3 >> 1)
}

/// The seeding recurrence: the next state word from its predecessor and its
/// index, kept to 32 bits.
pub open spec fn spec_seed_step(prev: u32, i: u32) -> u32 {
    let x = (prev as u64) ^ ((prev as u64) >> 30);
    let low = (1812433253 * (x as int)) % 0x1_0000_0000;
    ((low + i) % 0x1_0000_0000) as u32
}

/// The first `n + 1` seeded state words.
pub open spec fn spec_seed_rec(seed: u32, n: nat) -> Seq<u32>
    decreases n,
{
    if n == 0 {
        seq![seed]
    } else {
        let p = spec_seed_rec(seed, (n - 1) as nat);
        p.push(spec_seed_step(p.last(), n as u32))
    }
}

/// The whole freshly seeded state: 623 recurrence words and a final zero
/// word that the seeding loop leaves untouched.
pub open spec fn spec_seed_state(seed: u32) -> Seq<u32> {
    spec_seed_rec(seed, 622).push(0u32)
}

/// One twist update at position `i`, reading the partially rewritten state.
pub open spec fn spec_twist_val(s: Seq<u32>, i: int) -> u32 {
    let x = ((s[i] & 0x8000_0000) + (s[(i + 1) % 623] & 0x3FFF_FFFF)) as u32;
    let xa = if x & 1 != 0 {
        (x >> 1) ^ 0x9908_B0DF
    } else {
        x >> 1
    };
    s[(i + 397) % 623] ^ xa
}

/// The state after the first `n` in-place twist updates.
pub open spec fn spec_twist_rec(s: Seq<u32>, n: nat) -> Seq<u32>
    decreases n,
{
    if n == 0 {
        s
    } else {
        let p = spec_twist_rec(s, (n - 1) as nat);
        p.update(n - 1, spec_twist_val(p, n - 1))
    }
}

/// A full twist pass over the recurrence window.
pub open spec fn spec_twist(s: Seq<u32>) -> Seq<u32> {
    spec_twist_rec(s, 623)
}

/// `spec_seed_rec(seed, n)` holds `n + 1` words.
pub proof fn lemma_seed_rec_len(seed: u32, n: nat)
    ensures
        spec_seed_rec(seed, n).len() == n + 1,
    decreases n,
{
    if n > 0 {
        lemma_seed_rec_len(seed, (n - 1) as nat);
    }
}

pub struct Mt19937Prng {
    state: Vec<u32>,
    index: usize,
    lower_mask: u32,
    upper_mask: u32,
}

impl Mt19937Prng {
    /// The structural invariant of the generator.
    pub closed spec fn wf(&self) -> bool {
        self.state@.len() == MT_STATE_LEN && self.index <= MT_STATE_LEN && self.lower_mask
            == 0x3FFF_FFFF && self.upper_mask == 0x8000_0000
    }

    /// The state words, for contracts.
    pub closed spec fn state_seq(&self) -> Seq<u32> {
        self.state@
    }

    /// The read cursor, for contracts.
    pub closed spec fn cursor(&self) -> int {
        self.index as int
    }

    /// A generator seeded by the recurrence of `spec_seed_state`.
    pub fn new(seed: u32) -> (r: Self)
        ensures
            r.wf(),
            r.state_seq() == spec_seed_state(seed),
            r.cursor() == 0,
    {
        let mut state: Vec<u32> = Vec::new();
        let mut i: usize = 0;
        while i < MT_STATE_LEN
            invariant
                state@.len() == i,
                i <= MT_STATE_LEN,
                forall|k: int| 0 <= k < i ==> state@[k] == 0u32,
            decreases MT_STATE_LEN - i,
        {
            state.push(0);
            i += 1;
        }
        state.set(0, seed);
        let mut prng = Mt19937Prng { state, index: 0, lower_mask: 0x3FFF_FFFF, upper_mask: 0x8000_0000 };
        prng.init(Ghost(seed));
        prng
    }

    /// Fill the state from the seed word already placed at position 0.
    #[verifier::rlimit(50)]
    fn init(&mut self, Ghost(seed): Ghost<u32>)
        requires
            old(self).wf(),
            old(self).state_seq()[0] == seed,
            forall|k: int| 1 <= k < MT_STATE_LEN ==> old(self).state_seq()[k] == 0u32,
        ensures
            final(self).wf(),
            final(self).state_seq() == spec_seed_state(seed),
            final(self).cursor() == old(self).cursor(),
    {
        let mut i: usize = 1;
        while i < 623
            invariant
                self.wf(),
                1 <= i <= 623,
                self.index == old(self).index,
                self.state_seq().subrange(0, i as int) == spec_seed_rec(seed, (i - 1) as nat),
                forall|k: int| i <= k < MT_STATE_LEN ==> self.state_seq()[k] == 0u32,
            decreases 623 - i,
        {
            let ghost pre = self.state_seq();
            let previous = self.state[i - 1] as u64;
            let mixed = previous ^ (previous >> 30);
            proof {
                assert(mixed <= 0xFFFFFFFFu64) by (bit_vector)
                    requires mixed == previous ^ (previous >> 30), previous <= 0xFFFFFFFFu64;
                crate::math::lemma_mul_magnitude(1812433253, mixed as int, 1812433253, 0xFFFFFFFF);
            }
            let prod = 1812433253u64 * mixed;
            proof {
                assert(prod & 0xFFFFFFFF == prod % 0x1_0000_0000) by (bit_vector);
            }
            let val = prod & 0xFFFFFFFF;
            let sum = val + i as u64;
            proof {
                assert(sum & 0xFFFFFFFF == sum % 0x1_0000_0000 && sum % 0x1_0000_0000
                    < 0x1_0000_0000) by (bit_vector);
            }
            let word = (sum & 0xFFFFFFFF) as u32;
            proof {
                lemma_seed_rec_len(seed, (i - 1) as nat);
                assert(pre[i - 1] == spec_seed_rec(seed, (i - 1) as nat).last()) by {
                    assert(pre.subrange(0, i as int)[i - 1] == pre[i - 1]);
                }
                assert(word == spec_seed_step(pre[i - 1], i as u32));
            }
            self.state.set(i, word);
            proof {
                let n = i as nat;
                lemma_seed_rec_len(seed, n);
                assert(spec_seed_rec(seed, n) == spec_seed_rec(seed, (n - 1) as nat).push(
                    spec_seed_step(spec_seed_rec(seed, (n - 1) as nat).last(), n as u32),
                ));
                assert(self.state_seq().subrange(0, i as int + 1) =~= spec_seed_rec(seed, n));
            }
            i += 1;
        }
        proof {
            assert(self.state_seq() =~= spec_seed_rec(seed, 622).push(0u32)) by {
                assert(self.state_seq().subrange(0, 623) == spec_seed_rec(seed, 622));
                lemma_seed_rec_len(seed, 622);
                assert(forall|k: int| 0 <= k < 623 ==> self.state_seq()[k] == self.state_seq()
                    .subrange(0, 623)[k]);
                assert(self.state_seq()[623] == 0u32);
            }
        }
    }

    /// One in-place twist pass, resetting the cursor.
    fn twist(&mut self)
        requires
            old(self).wf(),
        ensures
            final(self).wf(),
            final(self).state_seq() == spec_twist(old(self).state_seq()),
            final(self).cursor() == 0,
    {
        let mut i: usize = 0;
        while i < 623
            invariant
                self.wf(),
                i <= 623,
                self.state_seq() == spec_twist_rec(old(self).state_seq(), i as nat),
            decreases 623 - i,
        {
            let hi = self.state[i] & self.upper_mask;
            let lo = self.state[(i + 1) % 623] & self.lower_mask;
            proof {
                let a = self.state_seq()[i as int];
                let b = self.state_seq()[((i + 1) % 623) as int];
                assert((a & 0x8000_0000u32) <= 0x8000_0000u32 && (b & 0x3FFF_FFFFu32)
                    <= 0x3FFF_FFFFu32) by (bit_vector);
            }
            let x = hi + lo;
            let mut x_a = x >> 1;
            if (x & 0x1) != 0 {
                x_a = x_a ^ 0x9908_B0DF;
            }
            let word = self.state[(i + 397) % 623] ^ x_a;
            self.state.set(i, word);
            proof {
                let p = spec_twist_rec(old(self).state_seq(), i as nat);
                assert(word == spec_twist_val(p, i as int));
                assert(spec_twist_rec(old(self).state_seq(), (i + 1) as nat) == p.update(
                    i as int,
                    spec_twist_val(p, i as int),
                ));
                assert(self.state_seq() =~= p.update(i as int, spec_twist_val(p, i as int)));
            }
            i += 1;
        }
        self.index = 0;
    }

    /// The next raw 32-bit word: the tempered state word under the cursor,
    /// after a twist pass whenever the window is exhausted.
    pub fn next_u32(&mut self) -> (r: u32)
        requires
            old(self).wf(),
        ensures
            final(self).wf(),
            old(self).cursor() == MT_STATE_LEN ==> final(self).state_seq() == spec_twist(
                old(self).state_seq(),
            ) && final(self).cursor() == 1 && r == spec_temper(final(self).state_seq()[0]),
            old(self).cursor() < MT_STATE_LEN ==> final(self).state_seq() == old(
                self,
            ).state_seq() && final(self).cursor() == old(self).cursor() + 1 && r == spec_temper(
                old(self).state_seq()[old(self).cursor()],
            ),
    {
        if self.index == MT_STATE_LEN {
            self.twist();
        }
        let mut y = self.state[self.index];
        y = y ^ (y >> 11);
        y = y ^ ((y << 7) & 0x9D2C5680);
        y = y ^ ((y << 15) & 0xEFC60000);
        y = y ^ (y >> 1);
        self.index = self.index + 1;
        y
    }
}

impl PRNG for Mt19937Prng {
    /// The generator is usable whenever its structural invariant holds.
    open spec fn inv(&self) -> bool {
        self.wf()
    }

    /// The top 16 bits of the next word, as a fixed-point value in `[0, 1)`:
    /// the tempered state word under the cursor, after a twist pass when the
    /// window was exhausted, so the draw sequence is a function of the seed
    /// alone.
    fn next_unit(&mut self) -> (r: i64)
        ensures
            old(self).cursor() == MT_STATE_LEN as int ==> final(self).state_seq() == spec_twist(
                old(self).state_seq(),
            ) && final(self).cursor() == 1 && r == spec_temper(final(self).state_seq()[0]) as int
                / 0x1_0000,
            old(self).cursor() < MT_STATE_LEN as int ==> final(self).state_seq() == old(
                self,
            ).state_seq() && final(self).cursor() == old(self).cursor() + 1 && r == spec_temper(
                old(self).state_seq()[old(self).cursor()],
            ) as int / 0x1_0000,
    {
        let y = self.next_u32();
        let hi = y >> 16;
        proof {
            assert((y >> 16u32) < 65536u32 && (y >> 16u32) == y / 0x1_0000u32) by (bit_vector);
        }
        hi as i64
    }
}

} // verus!
