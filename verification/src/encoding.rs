use vstd::prelude::*;

verus! {

/// 256 to the power n.
pub open spec fn pow256(n: nat) -> nat
    decreases n,
{
    if n == 0 {
        1
    } else {
        256 * pow256((n - 1) as nat)
    }
}

/// The n little-endian bytes of v: the low byte first.
pub open spec fn le_bytes(v: nat, n: nat) -> Seq<u8>
    decreases n,
{
    if n == 0 {
        Seq::empty()
    } else {
        seq![(v % 256) as u8] + le_bytes(v / 256, (n - 1) as nat)
    }
}

/// The value of little-endian bytes.
pub open spec fn le_value(s: Seq<u8>) -> nat
    decreases s.len(),
{
    if s.len() == 0 {
        0
    } else {
        s[0] as nat + 256 * le_value(s.subrange(1, s.len() as int))
    }
}

/// A 32-bit two's complement pattern of v, as a number.
pub open spec fn u32_of_i32(v: i32) -> nat {
    if v >= 0 {
        v as nat
    } else {
        (v + 0x1_0000_0000) as nat
    }
}

/// The i32 whose two's complement pattern is u, for u below 2^32.
pub open spec fn i32_of_u32(u: nat) -> i32 {
    if u < 0x8000_0000 {
        u as i32
    } else {
        (u - 0x1_0000_0000) as i32
    }
}

pub proof fn lemma_pow256_values()
    ensures
        pow256(0) == 1,
        pow256(1) == 0x100,
        pow256(2) == 0x1_0000,
        pow256(4) == 0x1_0000_0000,
        pow256(7) == 0x100_0000_0000_0000,
        pow256(8) == 0x1_0000_0000_0000_0000,
{
    reveal_with_fuel(pow256, 9);
}

/// The bytes of v number n.
pub proof fn lemma_le_bytes_len(v: nat, n: nat)
    ensures
        le_bytes(v, n).len() == n,
    decreases n,
{
    if n > 0 {
        lemma_le_bytes_len(v / 256, (n - 1) as nat);
    }
}

/// Reading back the n little-endian bytes of v gives v, when v fits in n bytes.
pub proof fn lemma_le_roundtrip(v: nat, n: nat)
    requires
        v < pow256(n),
    ensures
        le_bytes(v, n).len() == n,
        le_value(le_bytes(v, n)) == v,
    decreases n,
{
    lemma_le_bytes_len(v, n);
    if n > 0 {
        let p = pow256((n - 1) as nat);
        assert(v / 256 < p) by (nonlinear_arith)
            requires
                v < 256 * p,
        ;
        lemma_le_roundtrip(v / 256, (n - 1) as nat);
        let s = le_bytes(v, n);
        assert(s.subrange(1, s.len() as int) =~= le_bytes(v / 256, (n - 1) as nat));
        assert(v % 256 + 256 * (v / 256) == v) by (nonlinear_arith);
    }
}

/// The value of n bytes is less than 256 to the n.
pub proof fn lemma_le_value_bound(s: Seq<u8>)
    ensures
        le_value(s) < pow256(s.len()),
    decreases s.len(),
{
    if s.len() > 0 {
        let t = s.subrange(1, s.len() as int);
        lemma_le_value_bound(t);
        let p = pow256(t.len());
        assert(s[0] as nat + 256 * le_value(t) < 256 * p) by (nonlinear_arith)
            requires
                le_value(t) < p,
                s[0] < 256,
        ;
    }
}

/// Push the n little-endian bytes of v.
pub fn push_le(buf: &mut Vec<u8>, v: u64, n: usize)
    requires
        n <= 8,
    ensures
        final(buf)@ == old(buf)@ + le_bytes(v as nat, n as nat),
    decreases n,
{
    if n > 0 {
        buf.push((v % 256) as u8);
        let ghost mid = buf@;
        push_le(buf, v / 256, n - 1);
        assert(buf@ =~= old(buf)@ + le_bytes(v as nat, n as nat));
    }
}

/// The value of the n little-endian bytes of s from start.
pub fn read_le(s: &[u8], start: usize, n: usize) -> (r: u64)
    requires
        start + n <= s@.len(),
        n <= 8,
    ensures
        r == le_value(s@.subrange(start as int, start + n)),
    decreases n,
{
    if n == 0 {
        0
    } else {
        let len = s.len();
        assert(start < len);
        let rest = read_le(s, start + 1, n - 1);
        proof {
            let t = s@.subrange(start as int, start + n);
            assert(t.subrange(1, t.len() as int) =~= s@.subrange(start + 1, start + n));
            lemma_le_value_bound(s@.subrange(start + 1, start + n));
            lemma_pow256_values();
            if n - 1 < 7 {
                lemma_pow256_mono((n - 1) as nat, 7);
            }
        }
        (s[start] as u64) + 256 * rest
    }
}

/// pow256 grows with n.
pub proof fn lemma_pow256_mono(a: nat, b: nat)
    requires
        a <= b,
    ensures
        pow256(a) <= pow256(b),
    decreases b,
{
    if a < b {
        lemma_pow256_mono(a, (b - 1) as nat);
    }
}

/// The two's complement pattern of v.
pub fn i32_bits(v: i32) -> (r: u64)
    ensures
        r == u32_of_i32(v),
        r < 0x1_0000_0000,
{
    if v >= 0 {
        v as u64
    } else {
        ((v as i64) + 0x1_0000_0000i64) as u64
    }
}

/// The i32 with two's complement pattern u.
pub fn i32_from_bits(u: u64) -> (r: i32)
    requires
        u < 0x1_0000_0000,
    ensures
        r == i32_of_u32(u as nat),
{
    if u < 0x8000_0000 {
        u as i32
    } else {
        ((u as i64) - 0x1_0000_0000i64) as i32
    }
}

/// The pattern of an i32 gives the i32 back.
pub proof fn lemma_i32_bits_roundtrip(v: i32)
    ensures
        i32_of_u32(u32_of_i32(v)) == v,
        u32_of_i32(v) < 0x1_0000_0000,
{
}

} // verus!
