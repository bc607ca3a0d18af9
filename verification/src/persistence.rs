use vstd::prelude::*;

use crate::chunk::{chunk_bytes, count_non_empty, lemma_sections_len_mono, sections, zip_header_of, Chunk};
use crate::format::{
    chunk_header_of, decode_parts, decode_section, in_bounds, lemma_chunk_header_roundtrip,
    lemma_subchunk_header_roundtrip, parse_section, parse_sections, stored_values, subchunk_header_bytes,
    subchunk_header_of, words_size_for, span_read_outcome, ChunkReadError, ChunkReadSuccess, Decoded,
};
use crate::mask::{mask_end, mask_index};
use crate::region::{chunk_index, region_id_of};
use crate::space::IVec2;
use crate::world::{find_region, World};
use crate::palette::{lemma_pal_bytes, lemma_pal_roundtrip, pal_bytes};
use crate::subchunk::{header_of, lemma_section_len, lemma_subchunk_storage, palette_padding, section_bytes, Subchunk};
use crate::words::{lemma_words_bytes, lemma_words_roundtrip, words_bytes};

verus! {

/// Whether a subchunk holds a voxel other than air, and so has a section in encoded data.
pub open spec fn non_empty(s: Subchunk) -> bool {
    s.palette_view().len() != 1
}

/// The section of a subchunk as reading decodes it.
pub open spec fn decoded_of(s: Subchunk) -> Decoded {
    (s.origin_spec().y, s.palette_view(), s.bits() as u8, s.words_raw())
}

/// The decoded sections of the subchunks from k on that are not empty, in order.
pub open spec fn decoded_from(subs: Seq<Subchunk>, k: nat) -> Seq<Decoded>
    decreases subs.len() - k,
{
    if k >= subs.len() {
        Seq::empty()
    } else if non_empty(subs[k as int]) {
        seq![decoded_of(subs[k as int])] + decoded_from(subs, k + 1)
    } else {
        decoded_from(subs, k + 1)
    }
}

/// The number of subchunks from k on that are not empty.
pub open spec fn count_from(subs: Seq<Subchunk>, k: nat) -> nat
    decreases subs.len() - k,
{
    if k >= subs.len() {
        0
    } else if non_empty(subs[k as int]) {
        1 + count_from(subs, k + 1)
    } else {
        count_from(subs, k + 1)
    }
}

/// The mask bits of the subchunks below k that are not empty.
pub open spec fn seen_below(subs: Seq<Subchunk>, k: nat) -> Set<u32>
    decreases k,
{
    if k == 0 {
        Set::empty()
    } else if non_empty(subs[k - 1]) {
        seen_below(subs, (k - 1) as nat).insert(mask_index(subs[k - 1].origin_spec().y))
    } else {
        seen_below(subs, (k - 1) as nat)
    }
}

/// The chunks whose encoded data reading gives back: well-formed, at most 64 subchunks tall,
/// on a multiple of 32, and within the heights the subchunk mask tells apart.
pub open spec fn readable(c: Chunk) -> bool {
    &&& c.wf()
    &&& c.subchunks_view().len() <= 64
    &&& c.origin_spec().y % 32 == 0
    &&& c.height_spec() % 32 == 0
    &&& -1024 <= c.origin_spec().y
    &&& c.origin_spec().y + c.height_spec() <= 1024
}

proof fn lemma_count(subs: Seq<Subchunk>, n: nat)
    requires
        n <= subs.len(),
    ensures
        count_non_empty(subs, n) + count_from(subs, n) == count_from(subs, 0),
    decreases n,
{
    if n > 0 {
        lemma_count(subs, (n - 1) as nat);
        assert(count_from(subs, (n - 1) as nat) == (if non_empty(subs[n - 1]) {
            1nat
        } else {
            0nat
        }) + count_from(subs, n));
    }
}

/// The sections of fewer subchunks begin the sections of more.
proof fn lemma_sections_prefix(subs: Seq<Subchunk>, k: nat, m: nat)
    requires
        k <= m,
    ensures
        sections(subs, m).subrange(0, sections(subs, k).len() as int) == sections(subs, k),
        sections(subs, k).len() <= sections(subs, m).len(),
    decreases m,
{
    if k < m {
        lemma_sections_prefix(subs, k, (m - 1) as nat);
        let a = sections(subs, (m - 1) as nat);
        let b = sections(subs, m);
        assert(b.subrange(0, a.len() as int) =~= a);
        assert(b.subrange(0, sections(subs, k).len() as int) =~= a.subrange(0, sections(subs, k).len() as int));
    } else {
        assert(sections(subs, m).subrange(0, sections(subs, m).len() as int) =~= sections(subs, m));
    }
}

/// Every section takes a multiple of 8 bytes.
proof fn lemma_sections_aligned(subs: Seq<Subchunk>, k: nat)
    requires
        k <= subs.len(),
        forall|j: int| 0 <= j < subs.len() ==> (#[trigger] subs[j]).wf(),
    ensures
        sections(subs, k).len() % 8 == 0,
    decreases k,
{
    if k > 0 {
        lemma_sections_aligned(subs, (k - 1) as nat);
        if non_empty(subs[k - 1]) {
            lemma_section_aligned(subs[k - 1]);
        }
    }
}

/// The padding after a palette of l states ends it on a multiple of 8 bytes.
proof fn lemma_pad_aligned(l: nat)
    ensures
        (2 * l + palette_padding(l)) % 8 == 0,
        palette_padding(l) <= 7,
{
    let r = (2 * l) % 8;
    assert(0 <= r < 8);
    assert((2 * l) == 8 * ((2 * l) / 8) + r);
    if r == 0 {
        assert(palette_padding(l) == 0);
    } else {
        assert(palette_padding(l) == 8 - r);
        assert(2 * l + palette_padding(l) == 8 * ((2 * l) / 8) + 8);
    }
}

/// A section takes a multiple of 8 bytes.
proof fn lemma_section_aligned(s: Subchunk)
    requires
        s.wf(),
        non_empty(s),
    ensures
        section_bytes(s).len() % 8 == 0,
{
    lemma_section_len(s);
    lemma_pad_aligned(s.palette_view().len());
    let l = s.palette_view().len();
    let w = crate::words::spec_words_len(s.bits());
    let a = 2 * l + palette_padding(l);
    assert(section_bytes(s).len() == 8 + a + 8 * w);
    assert(a == 8 * (a / 8));
    assert(8 + a + 8 * w == 8 * (1 + a / 8 + w));
}

/// The subchunk whose section is decoded section i of those from k on.
pub open spec fn source_of(subs: Seq<Subchunk>, k: nat, i: int) -> int
    decreases subs.len() - k,
{
    if k >= subs.len() {
        0
    } else if non_empty(subs[k as int]) {
        if i == 0 {
            k as int
        } else {
            source_of(subs, k + 1, i - 1)
        }
    } else {
        source_of(subs, k + 1, i)
    }
}

/// Where the section of non-empty subchunk j lies among the decoded sections from k on.
pub open spec fn place_of(subs: Seq<Subchunk>, k: nat, j: int) -> int
    decreases subs.len() - k,
{
    if k >= subs.len() || j == k {
        0
    } else if non_empty(subs[k as int]) {
        1 + place_of(subs, k + 1, j)
    } else {
        place_of(subs, k + 1, j)
    }
}

/// Decoded section i of those from k on is that of a non-empty subchunk from k on.
proof fn lemma_source(subs: Seq<Subchunk>, k: nat, i: int)
    requires
        0 <= i < decoded_from(subs, k).len(),
    ensures
        k <= source_of(subs, k, i) < subs.len(),
        non_empty(subs[source_of(subs, k, i)]),
        decoded_from(subs, k)[i] == decoded_of(subs[source_of(subs, k, i)]),
    decreases subs.len() - k,
{
    if k < subs.len() {
        if non_empty(subs[k as int]) {
            if i > 0 {
                lemma_source(subs, k + 1, i - 1);
            }
        } else {
            lemma_source(subs, k + 1, i);
        }
    }
}

/// The section of a non-empty subchunk j from k on is among the decoded sections from k on.
proof fn lemma_place(subs: Seq<Subchunk>, k: nat, j: int)
    requires
        k <= j < subs.len(),
        non_empty(subs[j]),
    ensures
        0 <= place_of(subs, k, j) < decoded_from(subs, k).len(),
        decoded_from(subs, k)[place_of(subs, k, j)] == decoded_of(subs[j]),
    decreases subs.len() - k,
{
    if j > k {
        lemma_place(subs, k + 1, j);
    }
}

/// The subchunks of a readable chunk sit 32 apart from its origin, each in the chunk's mask
/// range, on distinct mask bits.
proof fn lemma_heights(c: Chunk, j: int)
    requires
        readable(c),
        0 <= j < c.subchunks_view().len(),
    ensures
        c.subchunks_view()[j].wf(),
        c.subchunks_view()[j].origin_spec().y == c.origin_spec().y + 32 * j,
        c.subchunks_view()[j].origin_spec().y % 32 == 0,
        in_bounds(
            mask_end(c.origin_spec().y),
            mask_end((c.origin_spec().y + c.height_spec()) as i32),
            c.subchunks_view()[j].origin_spec().y,
        ),
        mask_index(c.subchunks_view()[j].origin_spec().y) == (c.origin_spec().y + 1024) / 32 + j,
{
    c.lemma_subchunk_wf(j);
    c.lemma_len_of_height();
}

/// The mask bits below k are those of the non-empty subchunks below k.
proof fn lemma_seen_below(c: Chunk, k: nat)
    requires
        readable(c),
        k <= c.subchunks_view().len(),
    ensures
        forall|m: u32| #[trigger] seen_below(c.subchunks_view(), k).contains(m) ==> exists|j: int|
            0 <= j < k && mask_index(c.subchunks_view()[j].origin_spec().y) == m,
    decreases k,
{
    if k > 0 {
        lemma_seen_below(c, (k - 1) as nat);
        let subs = c.subchunks_view();
        assert forall|m: u32| #[trigger] seen_below(subs, k).contains(m) implies exists|j: int|
            0 <= j < k && mask_index(subs[j].origin_spec().y) == m by {
            if non_empty(subs[k - 1]) && m == mask_index(subs[k - 1].origin_spec().y) {
                assert(mask_index(subs[k - 1].origin_spec().y) == m);
            } else {
                assert(seen_below(subs, (k - 1) as nat).contains(m));
            }
        }
    }
}

/// The section of non-empty subchunk k lies in the chunk's encoded data after the header and
/// the sections below it, on a multiple of 8.
#[verifier::spinoff_prover]
proof fn lemma_section_at(c: Chunk, k: nat)
    requires
        readable(c),
        k < c.subchunks_view().len(),
        non_empty(c.subchunks_view()[k as int]),
    ensures
        ({
            let subs = c.subchunks_view();
            let sec = section_bytes(subs[k as int]);
            let pos = 32 + sections(subs, k).len();
            &&& pos + sec.len() <= chunk_bytes(c).len()
            &&& pos + sec.len() == 32 + sections(subs, k + 1).len()
            &&& pos % 8 == 0
            &&& chunk_bytes(c).subrange(pos as int, (pos + sec.len()) as int) == sec
        }),
{
    reveal(chunk_bytes);
    let subs = c.subchunks_view();
    let n = subs.len();
    let b = chunk_bytes(c);
    let s = subs[k as int];
    lemma_chunk_header_roundtrip(zip_header_of(c), sections(subs, n));
    let sec = section_bytes(s);
    lemma_sections_prefix(subs, k + 1, n);
    assert(sections(subs, k + 1) == sections(subs, k) + sec);
    assert forall|j: int| 0 <= j < subs.len() implies (#[trigger] subs[j]).wf() by {
        c.lemma_subchunk_wf(j);
    }
    lemma_sections_aligned(subs, k);
    let sn = sections(subs, n);
    let pos: int = 32 + sections(subs, k).len() as int;
    assert(sn.subrange(0, sections(subs, k + 1).len() as int) == sections(subs, k) + sec);
    assert(b.subrange(pos, pos + sec.len()) =~= sec) by {
        assert forall|t: int| 0 <= t < sec.len() implies #[trigger] b.subrange(pos, pos + sec.len())[t] == sec[t] by {
            assert(b[pos + t] == sn[sections(subs, k).len() + t]);
            assert(sn[sections(subs, k).len() + t] == sn.subrange(0, sections(subs, k + 1).len() as int)[sections(
                subs,
                k,
            ).len() + t]);
        }
    }
}

/// The header, palette and word bytes of the section of non-empty subchunk k lie where
/// reading looks for them.
#[verifier::spinoff_prover]
proof fn lemma_section_parts(c: Chunk, k: nat)
    requires
        readable(c),
        k < c.subchunks_view().len(),
        non_empty(c.subchunks_view()[k as int]),
    ensures
        ({
            let subs = c.subchunks_view();
            let s = subs[k as int];
            let b = chunk_bytes(c);
            let pos: int = 32 + sections(subs, k).len() as int;
            let l: int = s.palette_view().len() as int;
            let p2: int = pos + 8 + 2 * l + palette_padding(l as nat);
            let ws: int = 8 * crate::words::spec_words_len(s.bits()) as int;
            &&& b.subrange(pos, pos + 8) == subchunk_header_bytes(header_of(s))
            &&& b.subrange(pos + 8, pos + 8 + 2 * l) == pal_bytes(s.palette_view())
            &&& b.subrange(p2, p2 + ws) == words_bytes(s.words_raw())
            &&& p2 + ws == 32 + sections(subs, k + 1).len()
            &&& p2 + ws <= b.len()
            &&& pos % 8 == 0
            &&& p2 % 8 == 0
        }),
{
    let subs = c.subchunks_view();
    let b = chunk_bytes(c);
    let s = subs[k as int];
    c.lemma_subchunk_wf(k as int);
    lemma_section_at(c, k);
    let pos: int = 32 + sections(subs, k).len() as int;
    let sec = section_bytes(s);
    let h = header_of(s);
    s.lemma_len();
    lemma_subchunk_storage(s);
    let hb = subchunk_header_bytes(h);
    let pb = pal_bytes(s.palette_view());
    let l: int = s.palette_view().len() as int;
    let pad: int = palette_padding(l as nat) as int;
    let wb = words_bytes(s.words_raw());
    crate::format::lemma_subchunk_header_len(h);
    crate::palette::lemma_pal_bytes_len(s.palette_view());
    crate::words::lemma_words_bytes_len(s.words_raw());
    lemma_pad_aligned(l as nat);
    let zs = Seq::new(pad as nat, |i: int| 0u8);
    reveal(section_bytes);
    lemma_split4(hb, pb, zs, wb);
    lemma_sub_sub(b, pos, pos + sec.len(), 0, 8);
    lemma_sub_sub(b, pos, pos + sec.len(), 8, 8 + 2 * l);
    lemma_sub_sub(b, pos, pos + sec.len(), 8 + 2 * l + pad, sec.len() as int);
}

/// The four parts of a concatenation are its subranges.
proof fn lemma_split4(a: Seq<u8>, b: Seq<u8>, c: Seq<u8>, d: Seq<u8>)
    ensures
        (a + b + c + d).subrange(0, a.len() as int) == a,
        (a + b + c + d).subrange(a.len() as int, (a.len() + b.len()) as int) == b,
        (a + b + c + d).subrange((a.len() + b.len() + c.len()) as int, (a.len() + b.len() + c.len() + d.len()) as int) == d,
{
    assert((a + b + c + d).subrange(0, a.len() as int) =~= a);
    assert((a + b + c + d).subrange(a.len() as int, (a.len() + b.len()) as int) =~= b);
    assert((a + b + c + d).subrange((a.len() + b.len() + c.len()) as int, (a.len() + b.len() + c.len() + d.len()) as int) =~= d);
}

/// A subrange of a subrange is a subrange.
proof fn lemma_sub_sub(x: Seq<u8>, p: int, q: int, a: int, b: int)
    requires
        0 <= p <= q <= x.len(),
        0 <= a <= b <= q - p,
    ensures
        x.subrange(p, q).subrange(a, b) == x.subrange(p + a, p + b),
{
    assert(x.subrange(p, q).subrange(a, b) =~= x.subrange(p + a, p + b));
}

/// The section of non-empty subchunk k reads back to the subchunk's header and voxels.
#[verifier::spinoff_prover]
proof fn lemma_section_step(c: Chunk, k: nat)
    requires
        readable(c),
        k < c.subchunks_view().len(),
        non_empty(c.subchunks_view()[k as int]),
    ensures
        ({
            let subs = c.subchunks_view();
            let s = subs[k as int];
            let b = chunk_bytes(c);
            let pos = 32 + sections(subs, k).len();
            let l = s.palette_view().len();
            let p2 = pos + 8 + 2 * l + palette_padding(l);
            &&& parse_section(b, pos, c.origin_spec()) == Ok::<
                (crate::format::SubchunkHeader, nat, nat, nat),
                crate::format::ChunkReadError,
            >((header_of(s), pos + 8, p2 as nat, 32 + sections(subs, k + 1).len()))
            &&& decode_section(b, header_of(s), pos + 8, p2 as nat, c.origin_spec()) == Ok::<
                Decoded,
                crate::format::ChunkReadError,
            >(decoded_of(s))
        }),
{
    let subs = c.subchunks_view();
    let s = subs[k as int];
    let h = header_of(s);
    lemma_heights(c, k as int);
    lemma_section_parts(c, k);
    lemma_section_len(s);
    lemma_subchunk_storage(s);
    lemma_pad_aligned(s.palette_view().len());
    lemma_subchunk_header_roundtrip(h, Seq::empty());
    assert(subchunk_header_bytes(h) + Seq::<u8>::empty() =~= subchunk_header_bytes(h));
    lemma_pal_roundtrip(s.palette_view());
    lemma_words_roundtrip(s.words_raw());
}

/// Reading the sections of a chunk's encoded data from the one of subchunk k on gives the
/// decoded sections of its non-empty subchunks from k on.
proof fn lemma_parse_from(c: Chunk, k: nat)
    requires
        readable(c),
        k <= c.subchunks_view().len(),
    ensures
        parse_sections(
            chunk_bytes(c),
            32 + sections(c.subchunks_view(), k).len(),
            count_from(c.subchunks_view(), k),
            c.origin_spec(),
            mask_end(c.origin_spec().y),
            mask_end((c.origin_spec().y + c.height_spec()) as i32),
            seen_below(c.subchunks_view(), k),
        ) == Ok::<(Seq<Decoded>, nat), crate::format::ChunkReadError>(
            (
                decoded_from(c.subchunks_view(), k),
                32 + sections(c.subchunks_view(), c.subchunks_view().len()).len(),
            ),
        ),
    decreases c.subchunks_view().len() - k,
{
    let subs = c.subchunks_view();
    let n = subs.len();
    if k < n {
        lemma_parse_from(c, k + 1);
        lemma_heights(c, k as int);
        let s = subs[k as int];
        if non_empty(s) {
            lemma_section_step(c, k);
            lemma_seen_below(c, k);
            assert(!seen_below(subs, k).contains(mask_index(s.origin_spec().y))) by {
                if seen_below(subs, k).contains(mask_index(s.origin_spec().y)) {
                    let j = choose|j: int| 0 <= j < k && mask_index(subs[j].origin_spec().y) == mask_index(
                        s.origin_spec().y,
                    );
                    lemma_heights(c, j);
                }
            }
        }
    }
}

/// Reading back a chunk's encoded data: the header that zipping wrote comes back, and every
/// section reads back to the voxels of its subchunk. A chunk that holds the sections read, with
/// the same origin and as many subchunks, holds the same voxels as the chunk zipped.
pub proof fn lemma_chunk_roundtrip(c: Chunk, c2: Chunk, end: nat, ds: Seq<Decoded>)
    requires
        readable(c),
        c2.origin_spec() == c.origin_spec(),
        c2.subchunks_view().len() == c.subchunks_view().len(),
    ensures
        chunk_header_of(chunk_bytes(c)) == zip_header_of(c),
        parse_sections(
            chunk_bytes(c),
            32,
            zip_header_of(c).length as nat,
            c.origin_spec(),
            mask_end(c.origin_spec().y),
            mask_end((c.origin_spec().y + c.height_spec()) as i32),
            Set::empty(),
        ) is Ok,
        parse_sections(
            chunk_bytes(c),
            32,
            zip_header_of(c).length as nat,
            c.origin_spec(),
            mask_end(c.origin_spec().y),
            mask_end((c.origin_spec().y + c.height_spec()) as i32),
            Set::empty(),
        ) == Ok::<(Seq<Decoded>, nat), crate::format::ChunkReadError>((ds, end)) && crate::format::chunk_holds(
            c2,
            ds,
            zip_header_of(c).revision,
        ) ==> forall|j: int|
            0 <= j < c.subchunks_view().len() ==> (#[trigger] c2.subchunks_view()[j]).voxels_view()
                == c.subchunks_view()[j].voxels_view(),
{
    reveal(chunk_bytes);
    let subs = c.subchunks_view();
    let n = subs.len();
    lemma_chunk_header_roundtrip(zip_header_of(c), sections(subs, n));
    lemma_count(subs, n);
    assert(count_non_empty(subs, n) <= 64) by {
        lemma_count_bound(subs, n);
    }
    lemma_parse_from(c, 0);
    assert(sections(subs, 0).len() == 0);
    assert(seen_below(subs, 0) == Set::<u32>::empty());
    if parse_sections(
        chunk_bytes(c),
        32,
        zip_header_of(c).length as nat,
        c.origin_spec(),
        mask_end(c.origin_spec().y),
        mask_end((c.origin_spec().y + c.height_spec()) as i32),
        Set::empty(),
    ) == Ok::<(Seq<Decoded>, nat), crate::format::ChunkReadError>((ds, end)) && crate::format::chunk_holds(
        c2,
        ds,
        zip_header_of(c).revision,
    ) {
        assert(ds == decoded_from(subs, 0));
        assert forall|j: int| 0 <= j < n implies (#[trigger] c2.subchunks_view()[j]).voxels_view()
            == subs[j].voxels_view() by {
            lemma_heights(c, j);
            lemma_subchunk_storage(subs[j]);
            let y = c.origin_spec().y + 32 * j;
            if non_empty(subs[j]) {
                lemma_place(subs, 0, j);
                let i = place_of(subs, 0, j);
                assert(ds[i] == decoded_of(subs[j]));
                assert(ds[i].0 == y);
                assert(subs[j].voxels_view() =~= stored_values(ds[i].1, ds[i].2, ds[i].3));
            } else {
                assert forall|i: int| 0 <= i < ds.len() implies ds[i].0 != y by {
                    lemma_source(subs, 0, i);
                    let jj = source_of(subs, 0, i);
                    assert(ds[i] == decoded_of(subs[jj]));
                    lemma_heights(c, jj);
                }
            }
        }
    }
}

/// Reading a chunk's encoded data into a world whose chunk at the same place has the same
/// origin and height succeeds, and leaves that chunk with the voxels of the chunk zipped.
pub proof fn lemma_read_back(c: Chunk, w: World, r: Result<ChunkReadSuccess, ChunkReadError>)
    requires
        readable(c),
        span_read_outcome(w, chunk_bytes(c), r),
        ({
            let xz = IVec2 { x: c.origin_spec().x, y: c.origin_spec().z };
            find_region(w.regions_view(), region_id_of(xz)) matches Some(j) && {
                let c2 = w.regions_view()[j].chunks_view()[chunk_index(xz)];
                &&& c2.origin_spec() == c.origin_spec()
                &&& c2.height_spec() == c.height_spec()
                &&& c2.subchunks_view().len() == c.subchunks_view().len()
            }
        }),
    ensures
        r is Ok,
        ({
            let xz = IVec2 { x: c.origin_spec().x, y: c.origin_spec().z };
            let j = find_region(w.regions_view(), region_id_of(xz)).unwrap();
            let c2 = w.regions_view()[j].chunks_view()[chunk_index(xz)];
            forall|k: int|
                0 <= k < c.subchunks_view().len() ==> (#[trigger] c2.subchunks_view()[k]).voxels_view()
                    == c.subchunks_view()[k].voxels_view()
        }),
{
    let b = chunk_bytes(c);
    let xz = IVec2 { x: c.origin_spec().x, y: c.origin_spec().z };
    let j = find_region(w.regions_view(), region_id_of(xz)).unwrap();
    let c2 = w.regions_view()[j].chunks_view()[chunk_index(xz)];
    let hdr = zip_header_of(c);
    lemma_chunk_roundtrip(c, c2, 0, Seq::empty());
    assert(chunk_header_of(b) == hdr);
    let parsed = parse_sections(
        b,
        32,
        hdr.length as nat,
        c.origin_spec(),
        mask_end(c.origin_spec().y),
        mask_end((c.origin_spec().y + c.height_spec()) as i32),
        Set::empty(),
    );
    let (ds, end) = parsed->Ok_0;
    lemma_chunk_roundtrip(c, c2, end, ds);
}

proof fn lemma_count_bound(subs: Seq<Subchunk>, n: nat)
    ensures
        count_non_empty(subs, n) <= n,
    decreases n,
{
    if n > 0 {
        lemma_count_bound(subs, (n - 1) as nat);
    }
}

} // verus!
