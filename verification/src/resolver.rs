use vstd::prelude::*;

use crate::rng::{wyrand_bits, wyrand_next_seed};
use crate::world::{region_id_at, Region};

verus! {

/// The most regions that a resolver indexes. A world with more looks its regions up one by one.
pub const MAX_KEYS: usize = 0x1000_0000;

/// The most magic factors that one rebuild tries before it gives up.
pub const MAX_ATTEMPTS: u32 = 0x0100_0000;

/// One slot of a resolver: a region id, the index of its region, and the generation that
/// wrote it. Only a bucket of the resolver's current generation holds a region.
#[derive(Copy, Clone, Debug)]
pub struct Bucket {
    pub key: u64,
    pub idx: u32,
    pub gen: u32,
}

/// The bucket that holds nothing.
pub open spec fn empty_bucket() -> Bucket {
    Bucket { key: u64::MAX, idx: u32::MAX, gen: u32::MAX }
}

impl Bucket {
    /// The bucket that holds nothing.
    pub fn empty() -> (r: Bucket)
        ensures
            r == empty_bucket(),
    {
        Bucket { key: u64::MAX, idx: u32::MAX, gen: u32::MAX }
    }
}

/// The bucket that key lands in: the upper bits of the key times the magic factor.
pub open spec fn bucket_of(magic: u64, shift: u32, key: u64) -> int {
    (vstd::wrapping::u64_specs::wrapping_mul(magic, key) >> shift) as int
}

/// The ids of the regions, in order.
pub open spec fn region_keys(regions: Seq<Region>) -> Seq<u64> {
    Seq::new(regions.len(), |i: int| region_id_at(regions[i].origin_spec()))
}

/// Whether m maps each key of keys to its index, and holds nothing else.
pub open spec fn indexes(m: Map<u64, nat>, keys: Seq<u64>) -> bool {
    &&& forall|i: int| 0 <= i < keys.len() ==> #[trigger] m.contains_key(keys[i]) && m[keys[i]] == i
    &&& forall|k: u64| #[trigger] m.contains_key(k) ==> m[k] < keys.len() && keys[m[k] as int] == k
}

/// The shift that a rebuild settles on, stepping down from s (not below 34) while the
/// buckets it gives are fewer than four per region or fewer than the capacity.
pub open spec fn shift_from(s: u32, n: nat, cap: nat) -> u32
    decreases s,
{
    if 34 < s <= 63 && ((u64::MAX >> s) + 1 < 4 * n || (u64::MAX >> s) + 1 < cap) {
        shift_from((s - 1) as u32, n, cap)
    } else {
        s
    }
}

/// The shift of a rebuild for n regions and a capacity: that of the smallest power of two of
/// buckets that is at least 4n and at least the capacity.
pub open spec fn rebuild_shift(n: nat, cap: nat) -> u32 {
    shift_from(63, n, cap)
}

/// The generator state after k WyRand steps from state.
pub open spec fn seed_after(state: u64, k: nat) -> u64
    decreases k,
{
    if k == 0 {
        state
    } else {
        wyrand_next_seed(seed_after(state, (k - 1) as nat))
    }
}

/// The magic factor that attempt a (counted from 1) of a rebuild draws from the state.
pub open spec fn magic_at(state: u64, a: int) -> u64 {
    wyrand_bits(seed_after(state, (a - 1) as nat))
}

/// Whether the keys land in distinct buckets under the magic factor and shift.
pub open spec fn separates(magic: u64, shift: u32, keys: Seq<u64>) -> bool {
    forall|j: int, k: int|
        0 <= j < k < keys.len() ==> #[trigger] bucket_of(magic, shift, keys[j]) != #[trigger] bucket_of(
            magic,
            shift,
            keys[k],
        )
}

/// Whether a rebuild from this generator state, with this many buckets, finds a magic factor
/// for the keys within `MAX_ATTEMPTS` draws.
pub open spec fn rebuild_succeeds(state: u64, cap: nat, keys: Seq<u64>) -> bool {
    &&& keys.len() <= MAX_KEYS
    &&& exists|a: int|
        1 <= a <= MAX_ATTEMPTS && #[trigger] separates(
            magic_at(state, a),
            rebuild_shift(keys.len(), cap),
            keys,
        )
}

/// Whether no key occurs twice.
pub open spec fn distinct(keys: Seq<u64>) -> bool {
    forall|i: int, j: int| 0 <= i < j < keys.len() ==> keys[i] != keys[j]
}

/// Removing the key at index i, and moving the last key into its place, keeps a map of keys to
/// indexes in step: remove the key, and point the moved key at i.
pub proof fn lemma_swap_remove(m: Map<u64, nat>, keys: Seq<u64>, i: int)
    requires
        indexes(m, keys),
        distinct(keys),
        0 <= i < keys.len(),
    ensures
        i < keys.len() - 1 ==> indexes(
            m.remove(keys[i]).insert(keys.last(), i as nat),
            keys.update(i, keys.last()).drop_last(),
        ),
        i == keys.len() - 1 ==> indexes(m.remove(keys[i]), keys.drop_last()),
{
    let n = keys.len() as int;
    let after = keys.update(i, keys.last()).drop_last();
    if i < n - 1 {
        let m2 = m.remove(keys[i]).insert(keys.last(), i as nat);
        assert forall|j: int| 0 <= j < after.len() implies #[trigger] m2.contains_key(after[j])
            && m2[after[j]] == j by {
            if j != i {
                assert(m.contains_key(keys[j]));
                assert(keys[j] != keys[i]);
                assert(keys[j] != keys[n - 1]);
            }
        }
        assert forall|k: u64| #[trigger] m2.contains_key(k) implies m2[k] < after.len()
            && after[m2[k] as int] == k by {
            if k != keys.last() {
                let p = m[k] as int;
                assert(keys[p] == k);
                assert(p != i);
                if p == n - 1 {
                    assert(keys[p] == keys.last());
                }
            }
        }
    } else {
        let m2 = m.remove(keys[i]);
        let before = keys.drop_last();
        assert forall|j: int| 0 <= j < before.len() implies #[trigger] m2.contains_key(before[j])
            && m2[before[j]] == j by {
            assert(m.contains_key(keys[j]));
            assert(keys[j] != keys[i]);
        }
        assert forall|k: u64| #[trigger] m2.contains_key(k) implies m2[k] < before.len()
            && before[m2[k] as int] == k by {
            let p = m[k] as int;
            assert(keys[p] == k);
            assert(p != i);
        }
    }
}

proof fn lemma_shift_bits(x: u64, s: u32)
    by (bit_vector)
    requires
        1 <= s <= 63,
    ensures
        (x >> s) <= (0xffff_ffff_ffff_ffffu64 >> s),
        (0xffff_ffff_ffff_ffffu64 >> 63u32) == 1u64,
        s >= 34 ==> (0xffff_ffff_ffff_ffffu64 >> s) <= 0x3fff_ffffu64,
        (0xffff_ffff_ffff_ffffu64 >> 34u32) == 0x3fff_ffffu64,
        s >= 2 ==> (0xffff_ffff_ffff_ffffu64 >> ((s - 1) as u32)) == 2 * (0xffff_ffff_ffff_ffffu64
            >> s) + 1,
{
}

/// One WyRand step: the next state, and the bits drawn.
fn wyrand(state: &mut u64) -> (r: u64)
    ensures
        *final(state) == wyrand_next_seed(*old(state)),
        r == wyrand_bits(*old(state)),
{
    *state = state.wrapping_add(0xa0761d6478bd642f);
    let s = *state;
    let t = (s as u128).wrapping_mul((s ^ 0xe7037ed1a0b428db) as u128);
    (t.wrapping_shr(64) ^ t) as u64
}

/// Finds the index of a region from its id in one step: a perfect hash of the ids, found by
/// trying magic factors until no two ids land in one bucket.
pub struct OwnedResolver {
    buckets: Vec<Bucket>,
    magic: u64,
    /// 64 less the number of bits of a bucket's index.
    shift: u32,
    /// The state of the generator of magic factors.
    state: u64,
    gen: u32,
    /// Whether every region is indexed; false after a rebuild that found no magic factor.
    complete: bool,
}

impl View for OwnedResolver {
    type V = Map<u64, nat>;

    /// Each id that the resolver holds, with the index of its region.
    closed spec fn view(&self) -> Map<u64, nat> {
        Map::new(|k: u64| self.holds(k), |k: u64| self.at(k).idx as nat)
    }
}

impl OwnedResolver {
    spec fn at(&self, key: u64) -> Bucket {
        self.buckets@[bucket_of(self.magic, self.shift, key)]
    }

    spec fn holds(&self, key: u64) -> bool {
        self.at(key).gen == self.gen && self.at(key).key == key
    }

    proof fn lemma_in_range(&self, key: u64)
        requires
            self.shape(),
        ensures
            0 <= bucket_of(self.magic, self.shift, key) < self.buckets@.len(),
    {
        lemma_shift_bits(vstd::wrapping::u64_specs::wrapping_mul(self.magic, key), self.shift);
    }

    /// The bounds that hold between attempts of a rebuild too.
    spec fn shape(&self) -> bool {
        &&& 1 <= self.shift <= 63
        &&& (u64::MAX >> self.shift) < self.buckets@.len()
        &&& self.buckets@.len() <= 0x4000_0000
        &&& self.gen < u32::MAX
        &&& forall|b: int|
            0 <= b < self.buckets@.len() ==> (#[trigger] self.buckets@[b]).gen == u32::MAX
                || self.buckets@[b].gen <= self.gen
    }

    pub closed spec fn wf(&self) -> bool {
        &&& self.shape()
        &&& forall|b: int|
            0 <= b < self.buckets@.len() && (#[trigger] self.buckets@[b]).gen == self.gen
                ==> bucket_of(self.magic, self.shift, self.buckets@[b].key) == b
    }

    pub closed spec fn complete_spec(&self) -> bool {
        self.complete
    }

    /// The state of the generator of magic factors.
    pub closed spec fn state_spec(&self) -> u64 {
        self.state
    }

    /// The number of buckets.
    pub closed spec fn capacity_spec(&self) -> nat {
        self.buckets@.len()
    }

    /// Whether the bucket of key holds no region, so that key can go there.
    pub closed spec fn has_room(&self, key: u64) -> bool {
        self.at(key).gen != self.gen
    }

    /// Every index that the resolver holds fits in a bucket's u32.
    pub proof fn lemma_indexes_fit(&self)
        requires
            self.wf(),
        ensures
            forall|k: u64| #[trigger] self@.contains_key(k) ==> self@[k] <= u32::MAX,
    {
    }

    /// An empty resolver of 16 buckets.
    pub fn new() -> (r: OwnedResolver)
        ensures
            r.wf(),
            r.complete_spec(),
            r@ == Map::<u64, nat>::empty(),
            r.state_spec() == 0xda3e_39cb_94b9_5bdbu64,
            r.capacity_spec() == 16,
    {
        let mut buckets: Vec<Bucket> = Vec::new();
        let mut i: usize = 0;
        while i < 16
            invariant
                i <= 16,
                buckets@.len() == i,
                forall|b: int| 0 <= b < i ==> #[trigger] buckets@[b] == empty_bucket(),
            decreases 16 - i,
        {
            buckets.push(Bucket::empty());
            i = i + 1;
        }
        proof {
            lemma_shift_bits(0, 63);
        }
        let r = OwnedResolver {
            buckets,
            magic: 0,
            shift: 63,
            state: 0xda3e_39cb_94b9_5bdb,
            gen: 0,
            complete: true,
        };
        assert(r@ =~= Map::<u64, nat>::empty());
        r
    }

    /// Whether every region is indexed.
    pub fn is_complete(&self) -> (r: bool)
        ensures
            r == self.complete_spec(),
    {
        self.complete
    }

    /// The bucket of key.
    fn hash(&self, key: u64) -> (r: usize)
        requires
            self.shape(),
        ensures
            r == bucket_of(self.magic, self.shift, key),
            r < self.buckets@.len(),
    {
        let x = self.magic.wrapping_mul(key);
        proof {
            lemma_shift_bits(x, self.shift);
        }
        (x >> self.shift) as usize
    }

    /// The index of the region with id key, if the resolver holds it.
    pub fn get(&self, key: u64) -> (r: Option<usize>)
        requires
            self.wf(),
        ensures
            r == (if self@.contains_key(key) {
                Some(self@[key] as usize)
            } else {
                None
            }),
    {
        let h = self.hash(key);
        let b = self.buckets[h];
        if b.gen == self.gen && b.key == key {
            Some(b.idx as usize)
        } else {
            None
        }
    }

    /// Empties the bucket of key and returns the index it held; None where the resolver does
    /// not hold key.
    pub fn remove(&mut self, key: u64) -> (r: Option<usize>)
        requires
            old(self).wf(),
        ensures
            final(self).wf(),
            final(self).complete_spec() == old(self).complete_spec(),
            r == (if old(self)@.contains_key(key) {
                Some(old(self)@[key] as usize)
            } else {
                None
            }),
            final(self)@ == old(self)@.remove(key),
    {
        let h = self.hash(key);
        let b = self.buckets[h];
        if b.gen == self.gen && b.key == key {
            self.buckets.set(h, Bucket::empty());
            proof {
                assert forall|c: int| 0 <= c < self.buckets@.len() && (#[trigger] self.buckets@[c]).gen
                    == self.gen implies bucket_of(self.magic, self.shift, self.buckets@[c].key) == c by {
                    assert(c != h);
                    assert(self.buckets@[c] == old(self).buckets@[c]);
                }
                assert forall|k: u64| #[trigger] self.holds(k) == (old(self).holds(k) && k != key)
                    && (self.holds(k) ==> self.at(k) == old(self).at(k)) by {
                    self.lemma_in_range(k);
                }
                assert(self@ =~= old(self)@.remove(key));
            }
            Some(b.idx as usize)
        } else {
            assert(self@ =~= old(self)@.remove(key));
            None
        }
    }

    /// Points the bucket of key at a new index. The resolver must hold key.
    pub fn set_bucket_index(&mut self, key: u64, new_index: usize)
        requires
            old(self).wf(),
            old(self)@.contains_key(key),
            new_index <= u32::MAX,
        ensures
            final(self).wf(),
            final(self).complete_spec() == old(self).complete_spec(),
            final(self)@ == old(self)@.insert(key, new_index as nat),
    {
        let h = self.hash(key);
        let mut b = self.buckets[h];
        b.idx = new_index as u32;
        self.buckets.set(h, b);
        proof {
            assert forall|c: int| 0 <= c < self.buckets@.len() && (#[trigger] self.buckets@[c]).gen
                == self.gen implies bucket_of(self.magic, self.shift, self.buckets@[c].key) == c by {
                if c != h {
                    assert(self.buckets@[c] == old(self).buckets@[c]);
                }
            }
            assert forall|k: u64| #[trigger] self.holds(k) == old(self).holds(k) && (self.holds(k)
                && k != key ==> self.at(k) == old(self).at(k)) by {
                self.lemma_in_range(k);
            }
            assert(self@ =~= old(self)@.insert(key, new_index as nat));
        }
    }

    /// Indexes the region that was pushed last onto regions; rebuilds where its bucket is
    /// taken, where the resolver was not complete, or where regions is past the limit.
    pub fn insert_and_rebuild_if_needed(&mut self, regions: &[Region])
        requires
            old(self).wf(),
            regions@.len() > 0 && old(self).complete_spec() ==> indexes(
                old(self)@,
                region_keys(regions@.drop_last()),
            ),
        ensures
            final(self).wf(),
            regions@.len() > 0 && final(self).complete_spec() ==> indexes(
                final(self)@,
                region_keys(regions@),
            ),
            regions@.len() == 0 ==> *final(self) == *old(self),
            regions@.len() == 1 ==> final(self).complete_spec(),
            regions@.len() > 0 ==> ({
                let keys = region_keys(regions@);
                if old(self).complete_spec() && regions@.len() <= MAX_KEYS && old(self).has_room(
                    keys.last(),
                ) {
                    &&& final(self).complete_spec()
                    &&& final(self)@ == old(self)@.insert(keys.last(), (regions@.len() - 1) as nat)
                } else {
                    final(self).complete_spec() == rebuild_succeeds(
                        old(self).state_spec(),
                        old(self).capacity_spec(),
                        keys,
                    )
                }
            }),
    {
        let n = regions.len();
        if n == 0 {
            return;
        }
        if !self.complete || n > MAX_KEYS {
            self.rebuild(regions);
            return;
        }
        let key = regions[n - 1].id().0;
        let h = self.hash(key);
        let b = self.buckets[h];
        assert(key == region_keys(regions@).last());
        if b.gen == self.gen {
            self.rebuild(regions);
        } else {
            self.buckets.set(h, Bucket { key, idx: (n - 1) as u32, gen: self.gen });
            proof {
                let keys = region_keys(regions@);
                let before = region_keys(regions@.drop_last());
                assert(keys[n - 1] == key);
                assert forall|i: int| 0 <= i < before.len() implies keys[i] == before[i] by {}
                assert forall|c: int| 0 <= c < self.buckets@.len() && (#[trigger] self.buckets@[c]).gen
                    == self.gen implies bucket_of(self.magic, self.shift, self.buckets@[c].key) == c by {
                    if c != h {
                        assert(self.buckets@[c] == old(self).buckets@[c]);
                    }
                }
                assert forall|k: u64| #[trigger] self.holds(k) == (old(self).holds(k) || k == key)
                    && (self.holds(k) && k != key ==> self.at(k) == old(self).at(k)) by {
                    self.lemma_in_range(k);
                }
                assert(!old(self)@.contains_key(key));
                assert(self@ =~= old(self)@.insert(key, (n - 1) as nat));
                assert forall|i: int| 0 <= i < keys.len() implies #[trigger] self@.contains_key(keys[i])
                    && self@[keys[i]] == i by {
                    if i < n - 1 {
                        assert(keys[i] == before[i]);
                        assert(old(self)@.contains_key(before[i]));
                    }
                }
                assert forall|k: u64| #[trigger] self@.contains_key(k) implies self@[k] < keys.len()
                    && keys[self@[k] as int] == k by {
                    if k != key {
                        assert(old(self)@.contains_key(k));
                        assert(keys[old(self)@[k] as int] == before[old(self)@[k] as int]);
                    }
                }
            }
        }
    }

    /// Finds a magic factor under which the regions' ids land in distinct buckets, with at
    /// least four buckets for each region, and indexes every region. Where no factor is found
    /// after `MAX_ATTEMPTS` tries, or where regions is past the limit, the resolver is left
    /// empty and not complete.
    fn rebuild(&mut self, regions: &[Region])
        requires
            old(self).wf(),
        ensures
            final(self).wf(),
            final(self).complete_spec() ==> indexes(final(self)@, region_keys(regions@)),
            final(self).complete_spec() == rebuild_succeeds(
                old(self).state,
                old(self).buckets@.len(),
                region_keys(regions@),
            ),
            regions@.len() <= 1 ==> final(self).complete_spec(),
    {
        let n = regions.len();
        let ghost keys = region_keys(regions@);
        let ghost s0 = self.state;
        let ghost cap0 = self.buckets@.len();
        if n > MAX_KEYS {
            self.clear();
            return;
        }
        let cap = self.buckets.len();
        let mut size: usize = 2;
        let mut shift: u32 = 63;
        proof {
            lemma_shift_bits(0, 63);
        }
        while shift > 34 && (size < 4 * n || size < cap)
            invariant
                34 <= shift <= 63,
                size == (u64::MAX >> shift) + 1,
                n <= MAX_KEYS,
                cap <= 0x4000_0000,
                cap == cap0,
                n == keys.len(),
                shift_from(shift, n as nat, cap as nat) == rebuild_shift(n as nat, cap as nat),
            decreases shift,
        {
            proof {
                lemma_shift_bits(0, shift);
            }
            size = size * 2;
            shift = shift - 1;
        }
        proof {
            lemma_shift_bits(0, shift);
            lemma_shift_bits(0, 34);
            assert(!(size < 4 * n || size < cap));
            assert(shift == rebuild_shift(n as nat, cap as nat));
            if n <= 1 {
                assert(separates(magic_at(s0, 1), shift, keys));
            }
        }
        if size > cap {
            let mut buckets: Vec<Bucket> = Vec::new();
            let mut i: usize = 0;
            while i < size
                invariant
                    i <= size,
                    buckets@.len() == i,
                    forall|b: int| 0 <= b < i ==> #[trigger] buckets@[b] == empty_bucket(),
                decreases size - i,
            {
                buckets.push(Bucket::empty());
                i = i + 1;
            }
            self.buckets = buckets;
        }
        self.shift = shift;
        let mut attempts: u32 = 0;
        while attempts < MAX_ATTEMPTS
            invariant
                self.shape(),
                n == regions@.len(),
                n <= MAX_KEYS,
                keys == region_keys(regions@),
                self.shift == rebuild_shift(n as nat, cap0),
                attempts <= MAX_ATTEMPTS,
                self.state == seed_after(s0, attempts as nat),
                s0 == old(self).state,
                cap0 == old(self).buckets@.len(),
                forall|a: int|
                    1 <= a <= attempts ==> !#[trigger] separates(magic_at(s0, a), self.shift, keys),
                n <= 1 ==> attempts == 0,
            decreases MAX_ATTEMPTS - attempts,
        {
            attempts = attempts + 1;
            self.magic = wyrand(&mut self.state);
            assert(self.magic == magic_at(s0, attempts as int));
            assert(self.state == seed_after(s0, attempts as nat));
            if self.gen >= u32::MAX - 1 {
                self.gen = 0;
                self.clear_buckets();
            } else {
                self.gen = self.gen + 1;
            }
            if self.try_place(regions) {
                let ghost placed = self@;
                self.complete = true;
                assert(self@ =~= placed);
                assert(separates(magic_at(s0, attempts as int), rebuild_shift(keys.len(), cap0), keys));
                return;
            }
        }
        self.clear();
    }

    /// Marks the bucket of each region's id with the current generation, and gives up at the
    /// first bucket that is marked twice; where none is, writes each region's id and index
    /// into its bucket and empties the others.
    fn try_place(&mut self, regions: &[Region]) -> (ok: bool)
        requires
            old(self).shape(),
            regions@.len() <= MAX_KEYS,
            forall|b: int| 0 <= b < old(self).buckets@.len() ==> (#[trigger] old(self).buckets@[b]).gen
                != old(self).gen,
        ensures
            final(self).shape(),
            final(self).magic == old(self).magic,
            final(self).shift == old(self).shift,
            final(self).gen == old(self).gen,
            final(self).state == old(self).state,
            final(self).complete == old(self).complete,
            ok ==> final(self).wf() && indexes(final(self)@, region_keys(regions@)),
            ok == separates(old(self).magic, old(self).shift, region_keys(regions@)),
    {
        let n = regions.len();
        let ghost keys = region_keys(regions@);
        let ghost m = self.magic;
        let ghost s = self.shift;
        let mut i: usize = 0;
        while i < n
            invariant
                n == regions@.len(),
                keys == region_keys(regions@),
                i <= n,
                m == self.magic,
                s == self.shift,
                self.shape(),
                self.magic == old(self).magic,
                self.shift == old(self).shift,
                self.gen == old(self).gen,
                self.state == old(self).state,
                self.complete == old(self).complete,
                forall|b: int|
                    0 <= b < self.buckets@.len() ==> ((#[trigger] self.buckets@[b]).gen == self.gen
                        <==> exists|j: int| 0 <= j < i && #[trigger] bucket_of(m, s, keys[j]) == b),
                forall|j: int, k: int|
                    0 <= j < k < i ==> #[trigger] bucket_of(m, s, keys[j]) != #[trigger] bucket_of(
                        m,
                        s,
                        keys[k],
                    ),
            decreases n - i,
        {
            let key = regions[i].id().0;
            let h = self.hash(key);
            let mut b = self.buckets[h];
            assert(key == keys[i as int]);
            if b.gen == self.gen {
                proof {
                    let j = choose|j: int| 0 <= j < i && #[trigger] bucket_of(m, s, keys[j]) == h;
                    assert(bucket_of(m, s, keys[j]) == bucket_of(m, s, keys[i as int]));
                }
                return false;
            }
            b.gen = self.gen;
            self.buckets.set(h, b);
            proof {
                assert(bucket_of(m, s, keys[i as int]) == h);
                assert forall|c: int| 0 <= c < self.buckets@.len() implies ((#[trigger] self.buckets@[c]).gen
                    == self.gen <==> exists|j: int| 0 <= j < i + 1 && #[trigger] bucket_of(m, s, keys[j]) == c) by {
                    if c != h {
                        assert(self.buckets@[c] == old(self).buckets@[c] || true);
                        if exists|j: int| 0 <= j < i + 1 && #[trigger] bucket_of(m, s, keys[j]) == c {
                            let j = choose|j: int| 0 <= j < i + 1 && #[trigger] bucket_of(m, s, keys[j]) == c;
                            assert(j != i);
                        }
                    }
                }
                assert forall|j: int, k: int| 0 <= j < k < i + 1 implies #[trigger] bucket_of(m, s, keys[j])
                    != #[trigger] bucket_of(m, s, keys[k]) by {
                    if k == i && bucket_of(m, s, keys[j]) == bucket_of(m, s, keys[k]) {
                        self.lemma_in_range(keys[j]);
                    }
                }
            }
            i = i + 1;
        }
        let mut i: usize = 0;
        while i < n
            invariant
                n == regions@.len(),
                keys == region_keys(regions@),
                i <= n,
                m == self.magic,
                s == self.shift,
                self.shape(),
                self.magic == old(self).magic,
                self.shift == old(self).shift,
                self.gen == old(self).gen,
                self.state == old(self).state,
                self.complete == old(self).complete,
                forall|b: int|
                    0 <= b < self.buckets@.len() ==> ((#[trigger] self.buckets@[b]).gen == self.gen
                        <==> exists|j: int| 0 <= j < n && #[trigger] bucket_of(m, s, keys[j]) == b),
                forall|j: int, k: int|
                    0 <= j < k < n ==> #[trigger] bucket_of(m, s, keys[j]) != #[trigger] bucket_of(
                        m,
                        s,
                        keys[k],
                    ),
                forall|j: int|
                    0 <= j < i ==> self.buckets@[#[trigger] bucket_of(m, s, keys[j])] == (Bucket {
                        key: keys[j],
                        idx: j as u32,
                        gen: self.gen,
                    }),
            decreases n - i,
        {
            let key = regions[i].id().0;
            let h = self.hash(key);
            assert(key == keys[i as int]);
            assert(bucket_of(m, s, keys[i as int]) == h);
            assert(self.buckets@[h as int].gen == self.gen);
            self.buckets.set(h, Bucket { key, idx: i as u32, gen: self.gen });
            proof {
                assert forall|j: int| 0 <= j < i + 1 implies self.buckets@[#[trigger] bucket_of(m, s, keys[j])]
                    == (Bucket { key: keys[j], idx: j as u32, gen: self.gen }) by {
                    self.lemma_in_range(keys[j]);
                }
            }
            i = i + 1;
        }
        let len = self.buckets.len();
        let mut c: usize = 0;
        while c < len
            invariant
                n == regions@.len(),
                keys == region_keys(regions@),
                len == self.buckets@.len(),
                c <= len,
                m == self.magic,
                s == self.shift,
                self.shape(),
                self.magic == old(self).magic,
                self.shift == old(self).shift,
                self.gen == old(self).gen,
                self.state == old(self).state,
                self.complete == old(self).complete,
                forall|b: int|
                    0 <= b < self.buckets@.len() ==> ((#[trigger] self.buckets@[b]).gen == self.gen
                        <==> exists|j: int| 0 <= j < n && #[trigger] bucket_of(m, s, keys[j]) == b),
                forall|j: int|
                    0 <= j < n ==> self.buckets@[#[trigger] bucket_of(m, s, keys[j])] == (Bucket {
                        key: keys[j],
                        idx: j as u32,
                        gen: self.gen,
                    }),
                separates(m, s, keys),
            decreases len - c,
        {
            if self.buckets[c].gen != self.gen {
                self.buckets.set(c, Bucket::empty());
                proof {
                    assert forall|j: int| 0 <= j < n implies self.buckets@[#[trigger] bucket_of(m, s, keys[j])]
                        == (Bucket { key: keys[j], idx: j as u32, gen: self.gen }) by {
                        self.lemma_in_range(keys[j]);
                    }
                }
            }
            c = c + 1;
        }
        proof {
            assert forall|b: int| 0 <= b < self.buckets@.len() && (#[trigger] self.buckets@[b]).gen == self.gen
                implies bucket_of(self.magic, self.shift, self.buckets@[b].key) == b by {
                let j = choose|j: int| 0 <= j < n && #[trigger] bucket_of(m, s, keys[j]) == b;
            }
            assert forall|i: int| 0 <= i < keys.len() implies #[trigger] self@.contains_key(keys[i])
                && self@[keys[i]] == i by {
                assert(self.buckets@[bucket_of(m, s, keys[i])] == (Bucket { key: keys[i], idx: i as u32, gen: self.gen }));
                assert(i as u32 as nat == i);
            }
            assert forall|k: u64| #[trigger] self@.contains_key(k) implies self@[k] < keys.len()
                && keys[self@[k] as int] == k by {
                self.lemma_in_range(k);
                let b = bucket_of(m, s, k);
                let j = choose|j: int| 0 <= j < n && #[trigger] bucket_of(m, s, keys[j]) == b;
                assert(self.buckets@[bucket_of(m, s, keys[j])] == (Bucket { key: keys[j], idx: j as u32, gen: self.gen }));
            }
        }
        true
    }

    /// Empties every bucket.
    fn clear_buckets(&mut self)
        requires
            1 <= old(self).shift <= 63,
            (u64::MAX >> old(self).shift) < old(self).buckets@.len(),
            old(self).buckets@.len() <= 0x4000_0000,
            old(self).gen < u32::MAX,
        ensures
            final(self).shape(),
            final(self).magic == old(self).magic,
            final(self).shift == old(self).shift,
            final(self).gen == old(self).gen,
            final(self).state == old(self).state,
            final(self).complete == old(self).complete,
            final(self).buckets@.len() == old(self).buckets@.len(),
            forall|b: int| 0 <= b < final(self).buckets@.len() ==> #[trigger] final(self).buckets@[b]
                == empty_bucket(),
    {
        let len = self.buckets.len();
        let mut b: usize = 0;
        while b < len
            invariant
                len == self.buckets@.len(),
                b <= len,
                1 <= self.shift <= 63,
                (u64::MAX >> self.shift) < self.buckets@.len(),
                self.buckets@.len() <= 0x4000_0000,
                self.gen < u32::MAX,
                self.magic == old(self).magic,
                self.shift == old(self).shift,
                self.gen == old(self).gen,
                self.state == old(self).state,
                self.complete == old(self).complete,
                forall|c: int| 0 <= c < b ==> #[trigger] self.buckets@[c] == empty_bucket(),
            decreases len - b,
        {
            self.buckets.set(b, Bucket::empty());
            b = b + 1;
        }
    }

    /// Leaves the resolver empty and not complete.
    fn clear(&mut self)
        requires
            old(self).shape(),
        ensures
            final(self).wf(),
            !final(self).complete_spec(),
            final(self)@ == Map::<u64, nat>::empty(),
    {
        self.clear_buckets();
        self.complete = false;
        assert forall|k: u64| !self.holds(k) by {
            self.lemma_in_range(k);
        }
        assert(self@ =~= Map::<u64, nat>::empty());
    }
}

} // verus!
