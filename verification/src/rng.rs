use vstd::prelude::*;

use std::sync::Arc;

verus! {

/// The seed that WyRand steps to from seed.
pub open spec fn wyrand_next_seed(seed: u64) -> u64 {
    vstd::wrapping::u64_specs::wrapping_add(seed, 0xa0761d6478bd642fu64)
}

/// The 64 random bits that WyRand draws when it steps from seed.
pub open spec fn wyrand_bits(seed: u64) -> u64 {
    let s = wyrand_next_seed(seed);
    let t = vstd::wrapping::u128_specs::wrapping_mul(s as u128, (s ^ 0xe7037ed1a0b428dbu64) as u128);
    (vstd::wrapping::u128_specs::wrapping_shr(t, 64) ^ t) as u64
}

/// What taking `count` bits does to an RNG at (seed, state, remaining): the RNG's next seed,
/// state and remaining bits, and the bits taken.
pub open spec fn take_step(seed: u64, state: u64, remaining: u32, count: u32) -> (u64, u64, u32, u64) {
    let (s, st, rm) = if count > remaining {
        (wyrand_next_seed(seed), wyrand_bits(seed), 64u32)
    } else {
        (seed, state, remaining)
    };
    (
        s,
        ((st as nat) / vstd::arithmetic::power2::pow2(count as nat)) as u64,
        (rm - count) as u32,
        ((st as nat) % vstd::arithmetic::power2::pow2(count as nat)) as u64,
    )
}

/// An RNG at (seed, state, remaining) after taking bits `counts[0]`, `counts[1]`, ... in
/// turn: its seed, state and remaining bits, and the numbers taken. Two RNGs made from one
/// seed give the same numbers for the same counts, as `BitRng::take` follows `take_step`.
pub open spec fn takes(seed: u64, state: u64, remaining: u32, counts: Seq<u32>) -> (u64, u64, u32, Seq<u64>)
    decreases counts.len(),
{
    if counts.len() == 0 {
        (seed, state, remaining, Seq::empty())
    } else {
        let (s, st, rm, out) = takes(seed, state, remaining, counts.drop_last());
        let (s2, st2, rm2, x) = take_step(s, st, rm, counts.last());
        (s2, st2, rm2, out.push(x))
    }
}

/// Taking one more count extends the numbers taken by what `take_step` gives.
pub proof fn lemma_takes_push(seed: u64, state: u64, remaining: u32, counts: Seq<u32>, c: u32)
    ensures
        ({
            let (s, st, rm, out) = takes(seed, state, remaining, counts);
            let (s2, st2, rm2, x) = take_step(s, st, rm, c);
            takes(seed, state, remaining, counts.push(c)) == (s2, st2, rm2, out.push(x))
        }),
{
    assert(counts.push(c).drop_last() =~= counts);
}

/// The numbers taken for a prefix of the counts are the first numbers taken for all of them:
/// what one take gives does not depend on the takes that follow it.
pub proof fn lemma_takes_prefix(seed: u64, state: u64, remaining: u32, counts: Seq<u32>, i: int)
    requires
        0 <= i <= counts.len(),
    ensures
        takes(seed, state, remaining, counts).3.len() == counts.len(),
        takes(seed, state, remaining, counts.take(i)).3 == takes(seed, state, remaining, counts).3.take(i),
    decreases counts.len(),
{
    if counts.len() > 0 {
        let d = counts.drop_last();
        if i == counts.len() {
            lemma_takes_prefix(seed, state, remaining, d, i - 1);
            assert(counts.take(i) =~= counts);
        } else {
            lemma_takes_prefix(seed, state, remaining, d, i);
            assert(counts.take(i) =~= d.take(i));
            assert(takes(seed, state, remaining, counts).3.take(i) =~= takes(seed, state, remaining, d).3.take(i));
        }
    } else {
        assert(counts.take(i) =~= counts);
    }
}

/// Two RNGs at the same seed, state and remaining bits, such as two that `BitRng::new` made from
/// one seed, take the same numbers for the same counts, call after call, and end in the same
/// state.
pub proof fn lemma_same_seed_same_numbers(a: BitRng, b: BitRng, counts: Seq<u32>)
    requires
        a.seed_spec() == b.seed_spec(),
        a.state_spec() == b.state_spec(),
        a.remaining_spec() == b.remaining_spec(),
    ensures
        takes(a.seed_spec(), a.state_spec(), a.remaining_spec(), counts) == takes(
            b.seed_spec(),
            b.state_spec(),
            b.remaining_spec(),
            counts,
        ),
        forall|i: int|
            0 <= i <= counts.len() ==> #[trigger] takes(a.seed_spec(), a.state_spec(), a.remaining_spec(), counts.take(i)).3
                == takes(b.seed_spec(), b.state_spec(), b.remaining_spec(), counts).3.take(i),
{
    assert forall|i: int| 0 <= i <= counts.len() implies #[trigger] takes(a.seed_spec(), a.state_spec(), a.remaining_spec(), counts.take(i)).3
        == takes(b.seed_spec(), b.state_spec(), b.remaining_spec(), counts).3.take(i) by {
        lemma_takes_prefix(a.seed_spec(), a.state_spec(), a.remaining_spec(), counts, i);
    }
}

/// The lower half of a permutation after swapping each entry i from `i` up to 255 with the
/// entry that an RNG at (seed, state, remaining) picks by taking 8 bits.
pub open spec fn shuffle_from(p: Seq<u8>, seed: u64, state: u64, remaining: u32, i: nat) -> Seq<u8>
    decreases 256 - i,
{
    if i >= 256 {
        p
    } else {
        let (s2, st2, rm2, j) = take_step(seed, state, remaining, 8);
        let q = p.update(i as int, p[j as int]).update(j as int, p[i as int]);
        shuffle_from(q, s2, st2, rm2, i + 1)
    }
}

/// Shuffling keeps the number of entries.
pub proof fn lemma_shuffle_len(p: Seq<u8>, seed: u64, state: u64, remaining: u32, i: nat)
    requires
        p.len() == 512,
    ensures
        shuffle_from(p, seed, state, remaining, i).len() == p.len(),
    decreases 256 - i,
{
    if i < 256 {
        vstd::arithmetic::power2::lemma2_to64();
        let (s2, st2, rm2, j) = take_step(seed, state, remaining, 8);
        let q = p.update(i as int, p[j as int]).update(j as int, p[i as int]);
        lemma_shuffle_len(q, s2, st2, rm2, i + 1);
    }
}

/// Each value 0..=511 taken modulo 256.
pub open spec fn default_entries() -> Seq<u8> {
    Seq::new(512, |i: int| (i % 256) as u8)
}

/// The lower 256 entries of p, repeated twice.
pub open spec fn mirrored(p: Seq<u8>) -> Seq<u8> {
    Seq::new(512, |i: int| if i < 256 { p[i] } else { p[i - 256] })
}

/// The permutation that an RNG at (seed, state, remaining) shuffles the default order into.
pub open spec fn shuffled_entries(seed: u64, state: u64, remaining: u32) -> Seq<u8> {
    mirrored(shuffle_from(default_entries(), seed, state, remaining, 0))
}

/// A random 64-bit seed from the operating system's source of randomness.
/// Calls `rand::rngs::OsRng::try_fill_bytes` (through `getrandom`) on 8 bytes, which it reads as
/// a little-endian u64. The value is random, so nothing is stated of it; the call panics if the
/// operating system fails to provide randomness.
#[verifier::external_body]
pub(crate) fn os_random_seed() -> (r: u64) {
    let mut seed = [0u8; 8];
    rand::TryRngCore::try_fill_bytes(&mut rand::rngs::OsRng, &mut seed).unwrap();
    u64::from_le_bytes(seed)
}

/// An RNG for generating a few bits at a time.
///
/// Using 32 or 64 bit RNGs for small numbers in limited ranges is inefficient because the
/// majority of the generated bits are discarded. This RNG takes only a few bits at a time, so
/// the RNG algorithm, WyRand, only runs when there are not enough bits left in the state.
#[derive(Copy, Clone)]
pub struct BitRng {
    /// The current seed of the RNG.
    seed: u64,
    /// The current state of the RNG.
    state: u64,
    /// The number of bits remaining to be taken.
    remaining: u32,
}

impl BitRng {
    pub closed spec fn seed_spec(&self) -> u64 {
        self.seed
    }

    pub closed spec fn state_spec(&self) -> u64 {
        self.state
    }

    pub closed spec fn remaining_spec(&self) -> u32 {
        self.remaining
    }

    pub closed spec fn wf(&self) -> bool {
        self.remaining <= 64
    }

    /// An RNG with this seed and no bits drawn yet.
    pub fn new(s: u64) -> (r: BitRng)
        ensures
            r.wf(),
            r.seed_spec() == s,
            r.state_spec() == 0,
            r.remaining_spec() == 0,
    {
        BitRng { seed: s, state: 0, remaining: 0 }
    }

    /// An RNG with this seed and no bits drawn yet.
    pub fn seed_from_u64(state: u64) -> (r: BitRng)
        ensures
            r.wf(),
            r.seed_spec() == state,
            r.state_spec() == 0,
            r.remaining_spec() == 0,
    {
        BitRng::new(state)
    }

    /// An RNG seeded by the operating system's source of randomness.
    pub fn from_entropy() -> (r: BitRng)
        ensures
            r.wf(),
            r.state_spec() == 0,
            r.remaining_spec() == 0,
    {
        BitRng::new(os_random_seed())
    }

    /// A number whose low `count` bits are random and whose other bits are zero.
    pub fn take(&mut self, count: u32) -> (r: u64)
        requires
            old(self).wf(),
            count < 64,
        ensures
            final(self).wf(),
            ({
                let (seed, state, remaining) = if count > old(self).remaining_spec() {
                    (wyrand_next_seed(old(self).seed_spec()), wyrand_bits(old(self).seed_spec()), 64u32)
                } else {
                    (old(self).seed_spec(), old(self).state_spec(), old(self).remaining_spec())
                };
                &&& r == (state as nat) % vstd::arithmetic::power2::pow2(count as nat)
                &&& final(self).state_spec() == (state as nat) / vstd::arithmetic::power2::pow2(
                    count as nat,
                )
                &&& final(self).seed_spec() == seed
                &&& final(self).remaining_spec() == remaining - count
            }),
            r < vstd::arithmetic::power2::pow2(count as nat),
            (final(self).seed_spec(), final(self).state_spec(), final(self).remaining_spec(), r)
                == take_step(old(self).seed_spec(), old(self).state_spec(), old(self).remaining_spec(), count),
    {
        if count > self.remaining {
            self.regenerate();
        }
        self.remaining = self.remaining - count;
        let s = self.state;
        proof {
            lemma_low_bits_mod(s, count as u64);
        }
        let ret = s & ((1u64 << count) - 1);
        self.state = s >> count;
        ret
    }

    /// Use WyRand to generate new random bits.
    fn regenerate(&mut self)
        ensures
            final(self).seed_spec() == wyrand_next_seed(old(self).seed_spec()),
            final(self).state_spec() == wyrand_bits(old(self).seed_spec()),
            final(self).remaining_spec() == 64,
    {
        self.seed = self.seed.wrapping_add(0xa0761d6478bd642f);
        let t = (self.seed as u128).wrapping_mul((self.seed ^ 0xe7037ed1a0b428db) as u128);
        self.state = (t.wrapping_shr(64) ^ t) as u64;
        self.remaining = 64;
    }
}

proof fn lemma_low_bits_mod(s: u64, c: u64)
    requires
        c < 64,
    ensures
        1u64 << c >= 1,
        s & (((1u64 << c) - 1) as u64) == (s as nat) % vstd::arithmetic::power2::pow2(c as nat),
        s >> c == (s as nat) / vstd::arithmetic::power2::pow2(c as nat),
        (s as nat) % vstd::arithmetic::power2::pow2(c as nat) < vstd::arithmetic::power2::pow2(
            c as nat,
        ),
{
    vstd::bits::lemma_u64_pow2_no_overflow(c as nat);
    vstd::arithmetic::power2::lemma_pow2_pos(c as nat);
    vstd::bits::lemma_u64_shl_is_mul(1u64, c);
    assert(((1u64 << c) - 1) as u64 == vstd::bits::low_bits_mask(c as nat) as u64);
    vstd::bits::lemma_u64_low_bits_mask_is_mod(s, c as nat);
    vstd::bits::lemma_u64_shr_is_div(s, c);
}

/// Whether v occurs among the lower 256 entries of s.
pub open spec fn in_lower_half(s: Seq<u8>, v: u8) -> bool {
    exists|k: int| 0 <= k < 256 && #[trigger] s[k] == v
}

/// Each value 0..=255 occurs in the lower 256 entries, and the upper 256 entries repeat them.
pub open spec fn is_mirrored_permutation(s: Seq<u8>) -> bool {
    &&& s.len() == 512
    &&& forall|v: u8| #[trigger] in_lower_half(s, v)
    &&& forall|i: int| 0 <= i < 256 ==> #[trigger] s[i + 256] == s[i]
}

/// The value that mixing nums into a permutation gives, folding from the left from 0.
pub open spec fn mix_from(p: Seq<u8>, curr: u8, nums: Seq<i32>) -> u8
    decreases nums.len(),
{
    if nums.len() == 0 {
        curr
    } else {
        mix_from(p, p[curr as int + (nums[0] & 255i32) as int], nums.drop_first())
    }
}

/// The sum of the low bytes of the numbers.
pub open spec fn low_sum(nums: Seq<i32>) -> int
    decreases nums.len(),
{
    if nums.len() == 0 {
        0
    } else {
        (nums[0] & 255i32) as int + low_sum(nums.drop_first())
    }
}

/// Under the identity permutation (entry i is i mod 256), mixing numbers from a start value
/// adds their low bytes to it, mod 256: each step moves from the running value by the next
/// number.
pub proof fn lemma_mix_identity(p: Seq<u8>, curr: u8, nums: Seq<i32>)
    requires
        p.len() == 512,
        forall|i: int| 0 <= i < 512 ==> #[trigger] p[i] == (i % 256) as u8,
    ensures
        mix_from(p, curr, nums) as int == (curr + low_sum(nums)) % 256,
    decreases nums.len(),
{
    if nums.len() > 0 {
        let n = nums[0];
        assert(0 <= n & 255i32 <= 255) by (bit_vector);
        let a = (n & 255i32) as int;
        let next = p[curr as int + a];
        assert(next as int == (curr + a) % 256);
        lemma_mix_identity(p, next, nums.drop_first());
        let rest = low_sum(nums.drop_first());
        assert(rest >= 0) by {
            lemma_low_sum_nonneg(nums.drop_first());
        }
        assert(((curr + a) % 256 + rest) % 256 == (curr + a + rest) % 256) by (nonlinear_arith)
            requires
                rest >= 0,
                curr + a >= 0,
        ;
    }
}

proof fn lemma_low_sum_nonneg(nums: Seq<i32>)
    ensures
        low_sum(nums) >= 0,
    decreases nums.len(),
{
    if nums.len() > 0 {
        let n = nums[0];
        assert(0 <= n & 255i32) by (bit_vector);
        lemma_low_sum_nonneg(nums.drop_first());
    }
}

/// A permutation of 0..=255, repeated twice, to generate small random numbers very quickly.
/// Mostly used by noise algorithms to generate offsets within grid cells.
///
/// The permutation has a length of 512 and not 256 so that mixing needs no wrap by 255.
#[derive(Copy, Clone, Debug)]
pub struct Permutation([u8; 512]);

impl Permutation {
    pub closed spec fn view(&self) -> Seq<u8> {
        self.0@
    }

    /// The permutation where each value is equal to its index modulo 256.
    pub fn default_order() -> (r: Permutation)
        ensures
            r@.len() == 512,
            forall|i: int| 0 <= i < 512 ==> #[trigger] r@[i] == (i % 256) as u8,
            is_mirrored_permutation(r@),
    {
        let mut arr = [0u8; 512];
        let mut i: usize = 0;
        while i < 512
            invariant
                i <= 512,
                arr@.len() == 512,
                forall|j: int| 0 <= j < i ==> #[trigger] arr@[j] == (j % 256) as u8,
            decreases 512 - i,
        {
            arr[i] = (i % 256) as u8;
            i = i + 1;
        }
        let r = Permutation(arr);
        assert forall|v: u8| #[trigger] in_lower_half(r@, v) by {
            assert(r@[v as int] == v);
        }
        r
    }

    /// The permutation that a BitRng with this seed shuffles into.
    pub fn from_seed(s: u64) -> (r: Arc<Permutation>)
        ensures
            is_mirrored_permutation(r@),
            r@ == shuffled_entries(s, 0, 0),
    {
        Arc::new(Permutation::shuffled(BitRng::seed_from_u64(s)))
    }

    /// A permutation shuffled by a BitRng seeded by the operating system.
    pub fn from_entropy() -> (r: Arc<Permutation>)
        ensures
            is_mirrored_permutation(r@),
    {
        Arc::new(Permutation::shuffled(BitRng::new(os_random_seed())))
    }

    /// Shuffle the lower 256 entries of the default permutation by swapping each with an
    /// entry that rng picks, then copy them to the upper 256.
    pub fn shuffled(rng: BitRng) -> (r: Permutation)
        requires
            rng.wf(),
        ensures
            is_mirrored_permutation(r@),
            r@ == shuffled_entries(rng.seed_spec(), rng.state_spec(), rng.remaining_spec()),
    {
        let ghost (seed0, state0, rem0) = (rng.seed_spec(), rng.state_spec(), rng.remaining_spec());
        let ghost target = shuffle_from(default_entries(), seed0, state0, rem0, 0);
        let mut rng = rng;
        let mut ret = Permutation::default_order();
        assert(ret@ =~= default_entries());
        let mut i: usize = 0;
        proof {
            vstd::arithmetic::power2::lemma2_to64();
        }
        while i < 256
            invariant
                i <= 256,
                rng.wf(),
                ret@.len() == 512,
                forall|v: u8| #[trigger] in_lower_half(ret@, v),
                vstd::arithmetic::power2::pow2(8) == 256,
                shuffle_from(ret@, rng.seed_spec(), rng.state_spec(), rng.remaining_spec(), i as nat) == target,
            decreases 256 - i,
        {
            let ghost (s0, st0, rm0) = (rng.seed_spec(), rng.state_spec(), rng.remaining_spec());
            let j = rng.take(8) as usize;
            let a = ret.0[i];
            let b = ret.0[j];
            let ghost before = ret@;
            ret.0[i] = b;
            ret.0[j] = a;
            assert forall|v: u8| #[trigger] in_lower_half(ret@, v) by {
                assert(in_lower_half(before, v));
                let k = choose|k: int| 0 <= k < 256 && #[trigger] before[k] == v;
                if k == i {
                    assert(ret@[j as int] == v);
                } else if k == j {
                    assert(ret@[i as int] == v);
                } else {
                    assert(ret@[k] == v);
                }
            }
            assert(ret@ =~= before.update(i as int, before[j as int]).update(j as int, before[i as int]));
            i = i + 1;
        }
        proof {
            lemma_shuffle_len(default_entries(), seed0, state0, rem0, 0);
        }
        assert(ret@ == target);
        let mut m: usize = 0;
        while m < 256
            invariant
                m <= 256,
                ret@.len() == 512,
                forall|v: u8| #[trigger] in_lower_half(ret@, v),
                forall|j: int| 0 <= j < m ==> #[trigger] ret@[j + 256] == ret@[j],
                forall|j: int| 0 <= j < 256 ==> #[trigger] ret@[j] == target[j],
                target.len() == 512,
            decreases 256 - m,
        {
            let v = ret.0[m];
            let ghost before = ret@;
            ret.0[m + 256] = v;
            assert forall|v: u8| #[trigger] in_lower_half(ret@, v) by {
                assert(in_lower_half(before, v));
                let k = choose|k: int| 0 <= k < 256 && #[trigger] before[k] == v;
                assert(ret@[k] == v);
            }
            assert forall|j: int| 0 <= j < m + 1 implies #[trigger] ret@[j + 256] == ret@[j] by {
                if j < m {
                    assert(before[j + 256] == before[j]);
                }
            }
            m = m + 1;
        }
        assert forall|k: int| 256 <= k < 512 implies ret@[k] == target[k - 256] by {
            assert(ret@[(k - 256) + 256] == ret@[k - 256]);
        }
        assert(ret@ =~= mirrored(target));
        ret
    }

    /// The entry at index.
    pub fn index(&self, index: usize) -> (r: u8)
        requires
            index < 512,
        ensures
            r == self@[index as int],
    {
        self.0[index]
    }

    /// Mix some i32 numbers into a single value by indexing the permutation.
    /// Each number is wrapped into 0..256.
    pub fn mix(&self, nums: &[i32]) -> (r: u8)
        ensures
            r == mix_from(self@, 0, nums@),
    {
        let mut curr: u8 = 0;
        let mut k: usize = 0;
        assert(nums@.subrange(0, nums@.len() as int) =~= nums@);
        while k < nums.len()
            invariant
                k <= nums@.len(),
                self@.len() == 512,
                mix_from(self@, curr, nums@.subrange(k as int, nums@.len() as int)) == mix_from(
                    self@,
                    0,
                    nums@,
                ),
            decreases nums@.len() - k,
        {
            let n = nums[k];
            let low = n & 255;
            assert(0 <= n & 255i32 <= 255) by (bit_vector);
            let next = self.0[curr as usize + low as usize];
            assert(nums@.subrange(k as int, nums@.len() as int).drop_first() =~= nums@.subrange(
                k + 1,
                nums@.len() as int,
            ));
            curr = next;
            k = k + 1;
        }
        assert(nums@.subrange(k as int, nums@.len() as int) =~= Seq::<i32>::empty());
        curr
    }
}

} // verus!
