use vstd::prelude::*;

use crate::allocation::AllocationKind;
use crate::encoding::{le_bytes, le_value, lemma_le_bytes_len, lemma_le_roundtrip, lemma_pow256_values, push_le, read_le};

verus! {

/// The state value that marks an empty bucket of the cache.
pub const EMPTY_STATE: u16 = 0xFFFF;

/// One slot of the palette's lookup table.
#[derive(Copy, Clone)]
pub struct Bucket {
    pub index: u16,
    pub state: u16,
}

/// Position `d` steps along the probe sequence of `s` in a table of `size` buckets.
pub open spec fn probe_pos(s: u16, d: nat, size: nat) -> int {
    ((s as nat % size) + d) as int % size as int
}

/// The probe sequence of `s` reaches a bucket holding `s` after `d` steps,
/// passing only occupied buckets on the way.
pub open spec fn reach_at(cache: Seq<Bucket>, size: nat, s: u16, d: nat) -> bool {
    &&& d < size
    &&& cache[probe_pos(s, d, size)].state == s
    &&& forall|e: nat| e < d ==> #[trigger] cache[probe_pos(s, e, size)].state != EMPTY_STATE
}

/// The probe sequence of `s` reaches a bucket holding `s`.
pub open spec fn reachable(cache: Seq<Bucket>, size: nat, s: u16) -> bool {
    exists|d: nat| reach_at(cache, size, s, d)
}

/// The lookup table resolves the first `n` palette entries by linear probing.
pub open spec fn cache_inv(cache: Seq<Bucket>, size: nat, pal: Seq<u16>, n: nat) -> bool {
    &&& cache.len() == size
    &&& size > 0
    &&& n <= pal.len()
    &&& forall|b: int|
        0 <= b < size && #[trigger] cache[b].state != EMPTY_STATE ==> cache[b].index < n
            && pal[cache[b].index as int] == cache[b].state
    &&& forall|b1: int, b2: int|
        0 <= b1 < size && 0 <= b2 < size && b1 != b2 && #[trigger] cache[b1].state != EMPTY_STATE
            && #[trigger] cache[b2].state != EMPTY_STATE ==> cache[b1].index != cache[b2].index
    &&& forall|j: int| 0 <= j < n ==> reachable(cache, size, #[trigger] pal[j])
}

/// Capacities the palette can have.
pub open spec fn valid_cap(cap: nat) -> bool {
    cap == 1 || cap == 16 || cap == 32 || cap == 64 || cap == 128 || cap == 256 || cap == 512
        || cap == 1024 || cap == 2048 || cap == 4096 || cap == 8192 || cap == 16384 || cap
        == 32768
}

/// The capacity a palette of len states has: 1 for air alone, else the least capacity of 16
/// or more that holds them.
pub open spec fn min_cap(len: nat) -> nat {
    if len <= 1 {
        1
    } else if len <= 16 {
        16
    } else if len <= 32 {
        32
    } else if len <= 64 {
        64
    } else if len <= 128 {
        128
    } else if len <= 256 {
        256
    } else if len <= 512 {
        512
    } else if len <= 1024 {
        1024
    } else if len <= 2048 {
        2048
    } else if len <= 4096 {
        4096
    } else if len <= 8192 {
        8192
    } else if len <= 16384 {
        16384
    } else {
        32768
    }
}

/// The bytes of palette states, two little-endian bytes each.
pub open spec fn pal_bytes(s: Seq<u16>) -> Seq<u8>
    decreases s.len(),
{
    if s.len() == 0 {
        Seq::empty()
    } else {
        pal_bytes(s.drop_last()) + le_bytes(s.last() as nat, 2)
    }
}

/// The palette states that bytes encode, two little-endian bytes each.
pub open spec fn pal_of_bytes(b: Seq<u8>) -> Seq<u16> {
    Seq::new(b.len() / 2, |j: int| le_value(b.subrange(2 * j, 2 * j + 2)) as u16)
}

/// The bytes of states number two per state.
pub proof fn lemma_pal_bytes_len(s: Seq<u16>)
    ensures
        pal_bytes(s).len() == 2 * s.len(),
    decreases s.len(),
{
    if s.len() > 0 {
        lemma_pal_bytes_len(s.drop_last());
        lemma_le_bytes_len(s.last() as nat, 2);
    }
}

/// The bytes of states take two bytes per state, in order.
pub proof fn lemma_pal_bytes(s: Seq<u16>)
    ensures
        pal_bytes(s).len() == 2 * s.len(),
        forall|j: int| 0 <= j < s.len() ==> #[trigger] pal_bytes(s).subrange(2 * j, 2 * j + 2) == le_bytes(s[j] as nat, 2),
    decreases s.len(),
{
    if s.len() > 0 {
        let t = s.drop_last();
        lemma_pal_bytes(t);
        lemma_le_bytes_len(s.last() as nat, 2);
        let b = pal_bytes(s);
        assert forall|j: int| 0 <= j < s.len() implies #[trigger] b.subrange(2 * j, 2 * j + 2) == le_bytes(s[j] as nat, 2) by {
            if j < t.len() {
                assert(b.subrange(2 * j, 2 * j + 2) =~= pal_bytes(t).subrange(2 * j, 2 * j + 2));
            } else {
                assert(b.subrange(2 * j, 2 * j + 2) =~= le_bytes(s.last() as nat, 2));
            }
        }
    }
}

/// Decoding the bytes of states gives the states back.
pub proof fn lemma_pal_roundtrip(s: Seq<u16>)
    ensures
        pal_of_bytes(pal_bytes(s)) == s,
{
    lemma_pal_bytes(s);
    lemma_pow256_values();
    assert forall|j: int| 0 <= j < s.len() implies #[trigger] pal_of_bytes(pal_bytes(s))[j] == s[j] by {
        lemma_le_roundtrip(s[j] as nat, 2);
        assert(pal_bytes(s).subrange(2 * j, 2 * j + 2) == le_bytes(s[j] as nat, 2));
    }
    assert(pal_of_bytes(pal_bytes(s)) =~= s);
}

/// States that a palette can hold: air first, and never the empty marker.
pub open spec fn states_valid(s: Seq<u16>) -> bool {
    &&& s.len() >= 1
    &&& s[0] == 0
    &&& forall|j: int| 0 <= j < s.len() ==> #[trigger] s[j] != EMPTY_STATE
}

/// The sizes minus one that the lookup table can have.
pub open spec fn valid_bits(bits: u32) -> bool {
    bits == 1 || bits == 31 || bits == 63 || bits == 127 || bits == 255 || bits == 511 || bits
        == 1023 || bits == 2047 || bits == 4095 || bits == 8191 || bits == 16383 || bits == 32767
        || bits == 65535
}

proof fn lemma_mask_is_mod(x: u32, bits: u32)
    requires
        valid_bits(bits),
    ensures
        (x & bits) as nat == x as nat % (bits as nat + 1),
{
    vstd::bits::lemma_low_bits_mask_values();
    vstd::arithmetic::power2::lemma2_to64();
    let n: nat = if bits == 1 {
        1
    } else if bits == 31 {
        5
    } else if bits == 63 {
        6
    } else if bits == 127 {
        7
    } else if bits == 255 {
        8
    } else if bits == 511 {
        9
    } else if bits == 1023 {
        10
    } else if bits == 2047 {
        11
    } else if bits == 4095 {
        12
    } else if bits == 8191 {
        13
    } else if bits == 16383 {
        14
    } else if bits == 32767 {
        15
    } else {
        16
    };
    vstd::bits::lemma_u32_low_bits_mask_is_mod(x, n);
}

proof fn lemma_cap_bits(cap: u16, bits: u16)
    requires
        valid_cap(cap as nat),
        bits as nat + 1 == 2 * cap as nat,
    ensures
        valid_bits(bits as u32),
{
}

proof fn lemma_probe_in_range(s: u16, d: nat, size: nat)
    requires
        size > 0,
    ensures
        0 <= probe_pos(s, d, size) < size,
        probe_pos(s, 0, size) == s as nat % size,
{
    assert(0 <= probe_pos(s, d, size) < size && probe_pos(s, 0, size) == s as nat % size)
        by (nonlinear_arith)
        requires
            size > 0,
    ;
}

proof fn lemma_next_probe(h: u32, s: u16, d: nat, size: nat, bits: u32)
    requires
        size == bits as nat + 1,
        valid_bits(bits),
        h as int == probe_pos(s, d, size),
    ensures
        (((h + 1) as u32) & bits) as int == probe_pos(s, d + 1, size),
{
    lemma_probe_in_range(s, d, size);
    lemma_mask_is_mod((h + 1) as u32, bits);
    let a = s as nat % size;
    assert(((a + d + 1) as int % size as int) == ((((a + d) as int % size as int) + 1) % size as int))
        by (nonlinear_arith)
        requires
            size > 0,
    ;
}

/// A table with fewer entries than buckets has an empty bucket.
proof fn lemma_has_empty(cache: Seq<Bucket>, size: nat, pal: Seq<u16>, n: nat)
    requires
        cache_inv(cache, size, pal, n),
        n < size,
    ensures
        exists|b: int| 0 <= b < size && cache[b].state == EMPTY_STATE,
{
    if forall|b: int| 0 <= b < size ==> cache[b].state != EMPTY_STATE {
        let dom = vstd::set_lib::set_int_range(0, size as int);
        let f = |b: int| cache[b].index as int;
        vstd::set_lib::lemma_int_range(0, size as int);
        vstd::set_lib::lemma_int_range(0, n as int);
        assert(vstd::relations::injective_on(f, dom)) by {
            assert forall|b1: int, b2: int|
                dom.contains(b1) && dom.contains(b2) && #[trigger] f(b1) == #[trigger] f(b2)
                implies b1 == b2 by {
                if b1 != b2 {
                    assert(cache[b1].state != EMPTY_STATE);
                    assert(cache[b2].state != EMPTY_STATE);
                }
            }
        }
        vstd::set_lib::lemma_map_size(dom, dom.map(f), f);
        assert(dom.map(f).subset_of(vstd::set_lib::set_int_range(0, n as int))) by {
            assert forall|x: int| dom.map(f).contains(x) implies vstd::set_lib::set_int_range(
                0,
                n as int,
            ).contains(x) by {
                let b = choose|b: int| dom.contains(b) && f(b) == x;
                assert(cache[b].state != EMPTY_STATE);
            }
        }
        vstd::set_lib::lemma_len_subset(dom.map(f), vstd::set_lib::set_int_range(0, n as int));
    }
}

/// Every bucket is on the probe sequence of every state within `size` steps.
proof fn lemma_probe_covers(s: u16, b: int, size: nat)
    requires
        0 <= b < size,
    ensures
        ({
            let e = ((b - (s as nat % size) + size) % (size as int)) as nat;
            e < size && probe_pos(s, e, size) == b
        }),
{
    let a = s as nat % size;
    let e = (b - a + size) % (size as int);
    assert(0 <= a < size) by (nonlinear_arith)
        requires
            size > 0,
            a == s as nat % size,
    ;
    assert(0 <= e < size && (a + e) % (size as int) == b) by (nonlinear_arith)
        requires
            0 <= b < size,
            0 <= a < size,
            e == (b - a + size) % (size as int),
    ;
}

/// Placing a new entry in an empty bucket at the end of its probe sequence
/// keeps the table consistent and resolves one more entry.
proof fn lemma_place(cache: Seq<Bucket>, size: nat, pal: Seq<u16>, n: nat, d: nat)
    requires
        cache_inv(cache, size, pal, n),
        n < pal.len(),
        n < 0xFFFF,
        forall|j: int| 0 <= j <= n ==> #[trigger] pal[j] != EMPTY_STATE,
        d < size,
        cache[probe_pos(pal[n as int], d, size)].state == EMPTY_STATE,
        forall|e: nat| e < d ==> #[trigger] cache[probe_pos(pal[n as int], e, size)].state != EMPTY_STATE,
    ensures
        cache_inv(
            cache.update(
                probe_pos(pal[n as int], d, size),
                Bucket { index: n as u16, state: pal[n as int] },
            ),
            size,
            pal,
            n + 1,
        ),
{
    let v = pal[n as int];
    let p = probe_pos(v, d, size);
    lemma_probe_in_range(v, d, size);
    let c2 = cache.update(p, Bucket { index: n as u16, state: v });
    assert forall|j: int| 0 <= j < n + 1 implies reachable(c2, size, #[trigger] pal[j]) by {
        if j == n {
            assert(reach_at(c2, size, pal[j], d));
        } else {
            let d2 = choose|d2: nat| reach_at(cache, size, pal[j], d2);
            lemma_probe_in_range(pal[j], d2, size);
            assert forall|e: nat| e < d2 implies #[trigger] c2[probe_pos(pal[j], e, size)].state
                != EMPTY_STATE by {
                lemma_probe_in_range(pal[j], e, size);
                assert(cache[probe_pos(pal[j], e, size)].state != EMPTY_STATE);
            }
            assert(reach_at(c2, size, pal[j], d2));
        }
    }
    assert forall|b1: int, b2: int|
        0 <= b1 < size && 0 <= b2 < size && b1 != b2 && #[trigger] c2[b1].state != EMPTY_STATE
            && #[trigger] c2[b2].state != EMPTY_STATE implies c2[b1].index != c2[b2].index by {
        if b1 != p && b2 != p {
            assert(cache[b1].state != EMPTY_STATE && cache[b2].state != EMPTY_STATE);
        } else if b1 == p {
            assert(cache[b2].state != EMPTY_STATE);
        } else {
            assert(cache[b1].state != EMPTY_STATE);
        }
    }
    assert forall|b: int| 0 <= b < size && #[trigger] c2[b].state != EMPTY_STATE implies c2[b].index
        < n + 1 && pal[c2[b].index as int] == c2[b].state by {
        if b != p {
            assert(cache[b].state != EMPTY_STATE);
        }
    }
}

/// A table of `size` empty buckets resolves no entries.
proof fn lemma_empty_cache(size: nat, pal: Seq<u16>)
    requires
        size > 0,
    ensures
        cache_inv(
            Seq::new(size, |i: int| Bucket { index: EMPTY_STATE, state: EMPTY_STATE }),
            size,
            pal,
            0,
        ),
{
}

/// A set of voxel states, each assigned an index, with a linear-probe lookup table
/// from state to index. Index 0 always holds state 0 (air).
pub struct Palette {
    /// All voxel states that are or have ever been present, in order of insertion.
    palette: Vec<u16>,
    /// Lookup table from state to palette index. Its size is double the capacity.
    cache: Vec<Bucket>,
    /// Number of states in the palette.
    palette_len: u16,
    /// Number of states the palette can hold before its capacity doubles.
    palette_cap: u16,
    /// Size of the lookup table minus one.
    cache_bits: u16,
    /// Whether the palette is the shared empty palette or owns its own buffers.
    ptr_kind: AllocationKind,
}

impl Palette {
    /// The states in the palette, by index.
    pub closed spec fn view(&self) -> Seq<u16> {
        self.palette@
    }

    /// The capacity of the palette.
    pub closed spec fn cap(&self) -> nat {
        self.palette_cap as nat
    }

    pub closed spec fn wf(&self) -> bool {
        &&& self.palette_len as nat == self.palette@.len()
        &&& self.palette@.len() >= 1
        &&& self.palette@[0] == 0
        &&& valid_cap(self.palette_cap as nat)
        &&& self.palette_len <= self.palette_cap
        &&& self.palette_cap as nat == min_cap(self.palette@.len())
        &&& self.cache_bits as nat + 1 == 2 * self.palette_cap as nat
        &&& (self.ptr_kind == AllocationKind::Borrowed <==> self.palette_cap == 1)
        &&& forall|j: int| 0 <= j < self.palette@.len() ==> #[trigger] self.palette@[j] != EMPTY_STATE
        &&& cache_inv(self.cache@, self.cache_bits as nat + 1, self.palette@, self.palette@.len())
    }

    /// The palette never holds more states than its capacity.
    pub proof fn lemma_len_cap(&self)
        requires
            self.wf(),
        ensures
            1 <= self@.len() <= self.cap(),
            valid_cap(self.cap()),
            self@[0] == 0,
            self.cap() == min_cap(self@.len()),
            states_valid(self@),
    {
    }

    /// The palette that only holds air, with index 0.
    pub fn empty() -> (r: Palette)
        ensures
            r.wf(),
            r@ == seq![0u16],
            r.cap() == 1,
    {
        let cache = vec![Bucket { index: 0, state: 0 }, Bucket { index: EMPTY_STATE, state: EMPTY_STATE }];
        let r = Palette {
            palette: vec![0u16],
            cache,
            palette_len: 1,
            palette_cap: 1,
            cache_bits: 1,
            ptr_kind: AllocationKind::Borrowed,
        };
        proof {
            assert(reach_at(r.cache@, 2, r.palette@[0], 0));
        }
        r
    }

    /// The number of states the palette can hold before it grows.
    pub fn capacity(&self) -> (r: usize)
        requires
            self.wf(),
        ensures
            r == self.cap(),
    {
        self.palette_cap as usize
    }

    /// The number of voxel states present in the palette.
    pub fn len(&self) -> (r: usize)
        requires
            self.wf(),
        ensures
            r == self@.len(),
    {
        self.palette_len as usize
    }

    /// Whether the palette only holds air.
    pub fn is_empty(&self) -> (r: bool)
        requires
            self.wf(),
        ensures
            r == (self@.len() == 1),
    {
        self.palette_len == 1
    }

    /// The state with this palette index.
    pub fn get(&self, pidx: usize) -> (r: u16)
        requires
            self.wf(),
            pidx < self@.len(),
        ensures
            r == self@[pidx as int],
    {
        self.palette[pidx]
    }

    /// The palette data as little endian bytes, which is the native order on the supported
    /// targets. Empty when the palette only holds air.
    pub fn as_ne_bytes(&self) -> (r: Vec<u8>)
        requires
            self.wf(),
        ensures
            self@.len() == 1 ==> r@.len() == 0,
            self@.len() != 1 ==> r@ == pal_bytes(self@),
            self@.len() != 1 ==> r@.len() == 2 * self@.len(),
    {
        let mut out: Vec<u8> = Vec::new();
        if self.palette_len == 1 {
            return out;
        }
        let mut j: usize = 0;
        while j < self.palette.len()
            invariant
                j <= self.palette@.len(),
                out@ == pal_bytes(self.palette@.subrange(0, j as int)),
            decreases self.palette@.len() - j,
        {
            let v = self.palette[j];
            push_le(&mut out, v as u64, 2);
            proof {
                let t = self.palette@.subrange(0, j + 1);
                assert(t.drop_last() =~= self.palette@.subrange(0, j as int));
            }
            j = j + 1;
        }
        proof {
            assert(self.palette@.subrange(0, j as int) =~= self.palette@);
            lemma_pal_bytes(self.palette@);
        }
        out
    }

    /// The palette whose states the bytes encode, two little-endian bytes each, with the least
    /// capacity that holds them. None unless the first state is air and no state is the empty
    /// marker.
    pub fn from_le_bytes(bytes: &[u8]) -> (r: Option<Palette>)
        requires
            bytes@.len() % 2 == 0,
            4 <= bytes@.len() <= 65536,
        ensures
            r is Some <==> states_valid(pal_of_bytes(bytes@)),
            r matches Some(p) ==> p.wf() && p@ == pal_of_bytes(bytes@) && p.cap() == min_cap(
                pal_of_bytes(bytes@).len(),
            ),
    {
        let n = bytes.len() / 2;
        let ghost want = pal_of_bytes(bytes@);
        let mut states: Vec<u16> = Vec::new();
        let mut j: usize = 0;
        proof {
            lemma_pow256_values();
        }
        while j < n
            invariant
                n == bytes@.len() / 2,
                n == want.len(),
                2 <= n <= 32768,
                want == pal_of_bytes(bytes@),
                j <= n,
                states@ == want.subrange(0, j as int),
                forall|k: int| 0 <= k < j ==> #[trigger] states@[k] != EMPTY_STATE,
                j > 0 ==> states@[0] == 0,
            decreases n - j,
        {
            proof {
                crate::encoding::lemma_le_value_bound(bytes@.subrange(2 * j, 2 * j + 2));
                lemma_pow256_values();
            }
            let v = read_le(bytes, 2 * j, 2) as u16;
            assert(v == want[j as int]);
            if v == EMPTY_STATE || (j == 0 && v != 0) {
                return None;
            }
            states.push(v);
            j = j + 1;
            assert(states@ =~= want.subrange(0, j as int));
        }
        assert(states@ =~= want);
        let cap: u16 = if n <= 16 {
            16
        } else if n <= 32 {
            32
        } else if n <= 64 {
            64
        } else if n <= 128 {
            128
        } else if n <= 256 {
            256
        } else if n <= 512 {
            512
        } else if n <= 1024 {
            1024
        } else if n <= 2048 {
            2048
        } else if n <= 4096 {
            4096
        } else if n <= 8192 {
            8192
        } else if n <= 16384 {
            16384
        } else {
            32768
        };
        let mut p = Palette {
            palette: states,
            cache: Vec::new(),
            palette_len: n as u16,
            palette_cap: cap,
            cache_bits: ((cap as u32) * 2 - 1) as u16,
            ptr_kind: AllocationKind::Owned,
        };
        p.init_cache();
        Some(p)
    }

    /// Find the palette index of a state.
    pub fn search(&self, v: u16) -> (r: Option<usize>)
        requires
            self.wf(),
            v != EMPTY_STATE,
        ensures
            match r {
                Some(i) => i < self@.len() && self@[i as int] == v,
                None => !self@.contains(v),
            },
    {
        let ghost size = self.cache_bits as nat + 1;
        proof {
            lemma_has_empty(self.cache@, size, self.palette@, self.palette@.len());
            lemma_cap_bits(self.palette_cap, self.cache_bits);
                lemma_mask_is_mod(v as u32, self.cache_bits as u32);
                lemma_probe_in_range(v, 0, self.cache_bits as nat + 1);
        }
        let mut hash: u32 = (v as u32) & (self.cache_bits as u32);
        let ghost mut d: nat = 0;
        loop
            invariant
                self.wf(),
                size == self.cache_bits as nat + 1,
                v != EMPTY_STATE,
                d < size,
                hash as int == probe_pos(v, d, size),
                forall|e: nat|
                    e < d ==> #[trigger] self.cache@[probe_pos(v, e, size)].state != EMPTY_STATE
                        && self.cache@[probe_pos(v, e, size)].state != v,
                exists|b: int| 0 <= b < size && self.cache@[b].state == EMPTY_STATE,
            decreases size - d,
        {
            proof {
                lemma_probe_in_range(v, d, size);
            }
            let bucket = self.cache[hash as usize];
            if bucket.state == v {
                return Some(bucket.index as usize);
            }
            if bucket.state == EMPTY_STATE {
                proof {
                    if self@.contains(v) {
                        let j = choose|j: int| 0 <= j < self@.len() && self@[j] == v;
                        let dd = choose|dd: nat| reach_at(self.cache@, size, self.palette@[j], dd);
                        if dd < d {
                            assert(self.cache@[probe_pos(v, dd, size)].state != v);
                        } else if dd > d {
                            assert(self.cache@[probe_pos(v, d, size)].state != EMPTY_STATE);
                        }
                    }
                }
                return None;
            }
            proof {
                lemma_next_probe(hash, v, d, size, self.cache_bits as u32);
                if d + 1 == size {
                    let b = choose|b: int| 0 <= b < size && self.cache@[b].state == EMPTY_STATE;
                    lemma_probe_covers(v, b, size);
                    let e = ((b - (v as nat % size) + size) % (size as int)) as nat;
                    assert(self.cache@[probe_pos(v, e, size)].state != EMPTY_STATE);
                }
            }
            hash = (hash + 1) & (self.cache_bits as u32);
            proof {
                d = d + 1;
            }
        }
    }

    /// Rebuild the lookup table from the palette entries.
    fn init_cache(&mut self)
        requires
            old(self).palette_len as nat == old(self).palette@.len(),
            old(self).palette@.len() >= 1,
            old(self).palette@[0] == 0,
            valid_cap(old(self).palette_cap as nat),
            old(self).palette_len <= old(self).palette_cap,
            old(self).palette_cap as nat == min_cap(old(self).palette@.len()),
            old(self).cache_bits as nat + 1 == 2 * old(self).palette_cap as nat,
            (old(self).ptr_kind == AllocationKind::Borrowed <==> old(self).palette_cap == 1),
            forall|j: int|
                0 <= j < old(self).palette@.len() ==> #[trigger] old(self).palette@[j] != EMPTY_STATE,
        ensures
            final(self).wf(),
            final(self).palette@ == old(self).palette@,
            final(self).palette_cap == old(self).palette_cap,
            final(self).ptr_kind == old(self).ptr_kind,
    {
        let size: usize = (self.palette_cap as usize) * 2;
        let mut cache: Vec<Bucket> = Vec::new();
        let mut b: usize = 0;
        while b < size
            invariant
                b <= size,
                cache@.len() == b,
                forall|k: int| 0 <= k < b ==> #[trigger] cache@[k] == (Bucket { index: EMPTY_STATE, state: EMPTY_STATE }),
            decreases size - b,
        {
            cache.push(Bucket { index: EMPTY_STATE, state: EMPTY_STATE });
            b = b + 1;
        }
        proof {
            lemma_empty_cache(size as nat, self.palette@);
            assert(cache@ =~= Seq::new(size as nat, |i: int| Bucket { index: EMPTY_STATE, state: EMPTY_STATE }));
        }
        let n = self.palette_len as usize;
        let mut i: usize = 0;
        while i < n
            invariant
                i <= n,
                n == self.palette@.len(),
                n <= self.palette_cap,
                size == 2 * self.palette_cap as nat,
                size == self.cache_bits as nat + 1,
                valid_cap(self.palette_cap as nat),
                self.cache_bits as nat + 1 == 2 * self.palette_cap as nat,
                forall|j: int| 0 <= j < self.palette@.len() ==> #[trigger] self.palette@[j] != EMPTY_STATE,
                cache_inv(cache@, size as nat, self.palette@, i as nat),
            decreases n - i,
        {
            let state = self.palette[i];
            proof {
                lemma_has_empty(cache@, size as nat, self.palette@, i as nat);
                lemma_cap_bits(self.palette_cap, self.cache_bits);
                lemma_mask_is_mod(state as u32, self.cache_bits as u32);
                lemma_probe_in_range(state, 0, self.cache_bits as nat + 1);
            }
            let mut hash: u32 = (state as u32) & (self.cache_bits as u32);
            let ghost mut d: nat = 0;
            loop
                invariant_except_break
                    cache_inv(cache@, size as nat, self.palette@, i as nat),
                    d < size,
                    hash as int == probe_pos(state, d, size as nat),
                    forall|e: nat| e < d ==> #[trigger] cache@[probe_pos(state, e, size as nat)].state != EMPTY_STATE,
                    exists|b: int| 0 <= b < size && cache@[b].state == EMPTY_STATE,
                invariant
                    i < n,
                    n == self.palette@.len(),
                    n <= self.palette_cap,
                    state == self.palette@[i as int],
                    state != EMPTY_STATE,
                    forall|j: int| 0 <= j < self.palette@.len() ==> #[trigger] self.palette@[j] != EMPTY_STATE,
                    size == self.cache_bits as nat + 1,
                    valid_cap(self.palette_cap as nat),
                    self.cache_bits as nat + 1 == 2 * self.palette_cap as nat,
                ensures
                    cache_inv(cache@, size as nat, self.palette@, (i + 1) as nat),
                decreases size - d,
            {
                proof {
                    lemma_probe_in_range(state, d, size as nat);
                }
                if cache[hash as usize].state == EMPTY_STATE {
                    proof {
                        lemma_place(cache@, size as nat, self.palette@, i as nat, d);
                    }
                    cache.set(hash as usize, Bucket { index: i as u16, state });
                    break;
                }
                proof {
                    lemma_cap_bits(self.palette_cap, self.cache_bits);
                lemma_next_probe(hash, state, d, size as nat, self.cache_bits as u32);
                    if d + 1 == size {
                        let b = choose|b: int| 0 <= b < size && cache@[b].state == EMPTY_STATE;
                        lemma_probe_covers(state, b, size as nat);
                        let e = ((b - (state as nat % size as nat) + size) % (size as int)) as nat;
                        assert(cache@[probe_pos(state, e, size as nat)].state != EMPTY_STATE);
                    }
                }
                hash = (hash + 1) & (self.cache_bits as u32);
                proof {
                    d = d + 1;
                }
            }
            i = i + 1;
        }
        self.cache = cache;
    }

    /// Insert a state that is not in the palette, returning its assigned index.
    /// Returns `Err(index)` if the palette's capacity changed.
    pub fn insert(&mut self, v: u16) -> (r: Result<usize, usize>)
        requires
            old(self).wf(),
            v != EMPTY_STATE,
            !old(self)@.contains(v),
            old(self)@.len() < 32768,
        ensures
            final(self).wf(),
            final(self)@ == old(self)@.push(v),
            match r {
                Ok(i) => i == old(self)@.len() && final(self).cap() == old(self).cap(),
                Err(i) => i == old(self)@.len() && final(self).cap() == (if old(self).cap() == 1 {
                    16
                } else {
                    2 * old(self).cap()
                }),
            },
    {
        if self.ptr_kind == AllocationKind::Borrowed {
            // the shared empty palette grows to an owned palette of capacity 16
            self.palette = vec![0u16];
            self.palette_cap = 16;
            self.cache_bits = 31;
            self.ptr_kind = AllocationKind::Owned;
            self.palette_len = 2;
            self.palette.push(v);
            proof {
                assert(self.palette@ =~= old(self)@.push(v));
            }
            self.init_cache();
            return Err(1);
        }
        if self.palette_len >= self.palette_cap {
            let i = self.palette_len as usize;
            self.palette_cap = self.palette_cap * 2;
            self.cache_bits = ((self.palette_cap as u32) * 2 - 1) as u16;
            self.palette_len = self.palette_len + 1;
            self.palette.push(v);
            self.init_cache();
            return Err(i);
        }
        let i = self.palette_len as usize;
        let ghost size = self.cache_bits as nat + 1;
        self.palette_len = self.palette_len + 1;
        self.palette.push(v);
        proof {
            assert(cache_inv(self.cache@, size, self.palette@, i as nat)) by {
                let c = self.cache@;
                assert forall|j: int| 0 <= j < i implies reachable(c, size, #[trigger] self.palette@[j]) by {
                    assert(self.palette@[j] == old(self).palette@[j]);
                    assert(reachable(c, size, old(self).palette@[j]));
                }
                assert forall|b: int| 0 <= b < size && #[trigger] c[b].state != EMPTY_STATE implies c[b].index < i
                    && self.palette@[c[b].index as int] == c[b].state by {
                    assert(self.palette@[c[b].index as int] == old(self).palette@[c[b].index as int]);
                }
            }
            lemma_has_empty(self.cache@, size, self.palette@, i as nat);
            lemma_cap_bits(self.palette_cap, self.cache_bits);
                lemma_mask_is_mod(v as u32, self.cache_bits as u32);
                lemma_probe_in_range(v, 0, self.cache_bits as nat + 1);
        }
        let mut hash: u32 = (v as u32) & (self.cache_bits as u32);
        let ghost mut d: nat = 0;
        loop
            invariant
                i == old(self)@.len(),
                i < self.palette_len,
                self.palette@ == old(self)@.push(v),
                self.palette_len as nat == self.palette@.len(),
                self.palette_len <= self.palette_cap,
                self.palette_cap == old(self).palette_cap,
                self.ptr_kind == AllocationKind::Owned,
                self.cache_bits == old(self).cache_bits,
                valid_cap(self.palette_cap as nat),
                self.palette_cap != 1,
                self.palette_cap as nat == min_cap(self.palette@.len()),
                self.cache_bits as nat + 1 == 2 * self.palette_cap as nat,
                size == self.cache_bits as nat + 1,
                v != EMPTY_STATE,
                self.palette@[0] == 0,
                forall|j: int| 0 <= j < self.palette@.len() ==> #[trigger] self.palette@[j] != EMPTY_STATE,
                cache_inv(self.cache@, size, self.palette@, i as nat),
                d < size,
                hash as int == probe_pos(v, d, size),
                forall|e: nat| e < d ==> #[trigger] self.cache@[probe_pos(v, e, size)].state != EMPTY_STATE,
                exists|b: int| 0 <= b < size && self.cache@[b].state == EMPTY_STATE,
            decreases size - d,
        {
            proof {
                lemma_probe_in_range(v, d, size);
            }
            if self.cache[hash as usize].state == EMPTY_STATE {
                proof {
                    lemma_place(self.cache@, size, self.palette@, i as nat, d);
                }
                self.cache.set(hash as usize, Bucket { index: i as u16, state: v });
                return Ok(i);
            }
            proof {
                lemma_next_probe(hash, v, d, size, self.cache_bits as u32);
                if d + 1 == size {
                    let b = choose|b: int| 0 <= b < size && self.cache@[b].state == EMPTY_STATE;
                    lemma_probe_covers(v, b, size);
                    let e = ((b - (v as nat % size) + size) % (size as int)) as nat;
                    assert(self.cache@[probe_pos(v, e, size)].state != EMPTY_STATE);
                }
            }
            hash = (hash + 1) & (self.cache_bits as u32);
            proof {
                d = d + 1;
            }
        }
    }
}

} // verus!
