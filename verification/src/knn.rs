use vstd::prelude::*;

use crate::region::{region_id_of, RegionId};
use crate::space::{IVec2, IVec3};

verus! {

/// fxhash's hasher.
#[verifier::external_type_specification]
#[verifier::external_body]
pub struct ExFxHasher(fxhash::FxHasher);

/// std's builder of default hashers, here of fxhash's.
#[verifier::external_type_specification]
#[verifier::external_body]
#[verifier::reject_recursive_types(H)]
pub struct ExBuildHasherDefault<H>(std::hash::BuildHasherDefault<H>);

/// What an fxhash map from keys to runs of entries holds.
pub uninterp spec fn fx_runs(m: fxhash::FxHashMap<u64, (usize, usize)>) -> Map<u64, (usize, usize)>;

/// The empty map of runs.
pub open spec fn no_runs() -> Map<u64, (usize, usize)> {
    Map::empty()
}

/// Calls `FxHashMap::default`, which makes an empty map.
#[verifier::external_body]
fn fx_new() -> (r: fxhash::FxHashMap<u64, (usize, usize)>)
    ensures
        fx_runs(r) == no_runs(),
{
    fxhash::FxHashMap::default()
}

/// Calls `HashMap::insert` on an fxhash map, which maps the key to the value in place of any
/// value it had.
#[verifier::external_body]
fn fx_insert(m: &mut fxhash::FxHashMap<u64, (usize, usize)>, k: u64, v: (usize, usize))
    ensures
        fx_runs(*final(m)) == fx_runs(*old(m)).insert(k, v),
{
    m.insert(k, v);
}

/// Calls `HashMap::get` on an fxhash map and copies out the value it finds for the key.
#[verifier::external_body]
fn fx_get(m: &fxhash::FxHashMap<u64, (usize, usize)>, k: u64) -> (r: Option<(usize, usize)>)
    ensures
        fx_runs(*m).contains_key(k) ==> r == Some(fx_runs(*m)[k]),
        !fx_runs(*m).contains_key(k) ==> r is None,
{
    m.get(&k).copied()
}

/// The entries of s keyed by k, in order, without their keys.
pub open spec fn bucket_of<E>(s: Seq<(u64, E)>, k: u64) -> Seq<E>
    decreases s.len(),
{
    if s.len() == 0 {
        Seq::empty()
    } else {
        let rest = bucket_of(s.drop_last(), k);
        if s.last().0 == k {
            rest.push(s.last().1)
        } else {
            rest
        }
    }
}

/// The keys of s do not go down.
pub open spec fn sorted_by_key<E>(s: Seq<(u64, E)>) -> bool {
    forall|i: int, j: int| 0 <= i < j < s.len() ==> #[trigger] s[i].0 <= #[trigger] s[j].0
}

/// `slice::sort_unstable_by_key`, by the first field: the entries are reordered so that their
/// keys do not go down; which order equal keys take is left open.
#[verifier::external_body]
fn sort_by_first<E>(v: &mut Vec<(u64, E)>)
    ensures
        final(v)@.to_multiset() == old(v)@.to_multiset(),
        sorted_by_key(final(v)@),
{
    v.sort_unstable_by_key(|e| e.0)
}

/// Whether the run [a, b) of s holds exactly the entries keyed by k.
spec fn bucket_ok<E>(s: Seq<(u64, E)>, k: u64, range: (usize, usize)) -> bool {
    &&& range.0 < range.1 <= s.len()
    &&& forall|j: int| 0 <= j < s.len() ==> ((range.0 <= j < range.1) == (#[trigger] s[j].0 == k))
}

/// Entries grouped by a key, so that all entries of one key are found together.
struct RegionIndex<E> {
    entries: Vec<(u64, E)>,
    buckets: fxhash::FxHashMap<u64, (usize, usize)>,
    next: Vec<(u64, E)>,
}

impl<E: Copy> RegionIndex<E> {
    spec fn wf(&self) -> bool {
        &&& sorted_by_key(self.entries@)
        &&& forall|k: u64| #[trigger] fx_runs(self.buckets).contains_key(k) ==> bucket_ok(self.entries@, k, fx_runs(self.buckets)[k])
        &&& forall|j: int| 0 <= j < self.entries@.len() ==> fx_runs(self.buckets).contains_key(#[trigger] self.entries@[j].0)
    }

    fn new() -> (r: RegionIndex<E>)
        ensures
            r.wf(),
            r.entries@ == Seq::<(u64, E)>::empty(),
            r.next@ == Seq::<(u64, E)>::empty(),
    {
        RegionIndex { entries: Vec::new(), buckets: fx_new(), next: Vec::new() }
    }

    fn push(&mut self, key: u64, e: E)
        requires
            old(self).wf(),
        ensures
            final(self).wf(),
            final(self).entries@ == old(self).entries@,
            final(self).next@ == old(self).next@.push((key, e)),
    {
        self.next.push((key, e));
    }

    fn rebuild(&mut self)
        requires
            old(self).wf(),
        ensures
            final(self).wf(),
            final(self).entries@.to_multiset() == old(self).next@.to_multiset(),
            final(self).next@ == Seq::<(u64, E)>::empty(),
    {
        let mut entries: Vec<(u64, E)> = Vec::new();
        std::mem::swap(&mut entries, &mut self.next);
        sort_by_first(&mut entries);
        let mut buckets: fxhash::FxHashMap<u64, (usize, usize)> = fx_new();
        let len = entries.len();
        if len > 0 {
            let mut cur: u64 = entries[0].0;
            let mut start: usize = 0;
            let mut i: usize = 1;
            while i < len
                invariant
                    len == entries@.len(),
                    sorted_by_key(entries@),
                    0 <= start < i <= len,
                    cur == entries@[start as int].0,
                    forall|j: int| start <= j < i ==> #[trigger] entries@[j].0 == cur,
                    start > 0 ==> entries@[start - 1].0 < cur,
                    forall|k: u64| #[trigger] fx_runs(buckets).contains_key(k) ==> k < cur && bucket_ok(entries@, k, fx_runs(buckets)[k]),
                    forall|j: int| 0 <= j < start ==> fx_runs(buckets).contains_key(#[trigger] entries@[j].0),
                decreases len - i,
            {
                let key = entries[i].0;
                if key != cur {
                    proof {
                        assert(entries@[i - 1].0 == cur);
                        assert(cur < key);
                        assert(bucket_ok(entries@, cur, (start, i))) by {
                            assert forall|j: int| 0 <= j < entries@.len() implies ((start <= j < i) == (
                            #[trigger] entries@[j].0 == cur)) by {
                                if j < start {
                                    assert(entries@[j].0 <= entries@[start - 1].0);
                                } else if j >= i {
                                    assert(entries@[i as int].0 <= entries@[j].0);
                                }
                            }
                        }
                    }
                    fx_insert(&mut buckets, cur, (start, i));
                    cur = key;
                    start = i;
                }
                i = i + 1;
            }
            proof {
                assert(bucket_ok(entries@, cur, (start, len))) by {
                    assert forall|j: int| 0 <= j < entries@.len() implies ((start <= j < len) == (
                    #[trigger] entries@[j].0 == cur)) by {
                        if j < start {
                            assert(entries@[j].0 <= entries@[start - 1].0);
                        }
                    }
                }
            }
            fx_insert(&mut buckets, cur, (start, len));
            proof {
                assert forall|j: int| 0 <= j < entries@.len() implies fx_runs(buckets).contains_key(
                    #[trigger] entries@[j].0,
                ) by {
                    if j >= start {
                        assert(entries@[j].0 == cur);
                    }
                }
            }
        }
        self.entries = entries;
        self.buckets = buckets;
    }

    fn get(&self, key: u64) -> (r: Vec<E>)
        requires
            self.wf(),
        ensures
            r@ == bucket_of(self.entries@, key),
    {
        match fx_get(&self.buckets, key) {
            Some(range) => {
                let (a, b) = range;
                proof {
                    lemma_bucket_run(self.entries@, key, a as int, b as int);
                }
                let mut out: Vec<E> = Vec::new();
                let mut j: usize = a;
                while j < b
                    invariant
                        a <= j <= b,
                        b <= self.entries@.len(),
                        out@ == self.entries@.subrange(a as int, j as int).map_values(|x: (u64, E)| x.1),
                    decreases b - j,
                {
                    out.push(self.entries[j].1);
                    j = j + 1;
                    assert(out@ =~= self.entries@.subrange(a as int, j as int).map_values(|x: (u64, E)| x.1));
                }
                out
            },
            None => {
                proof {
                    lemma_bucket_run(self.entries@, key, 0, 0);
                    assert(self.entries@.subrange(0, 0).map_values(|x: (u64, E)| x.1) =~= Seq::<E>::empty());
                }
                Vec::new()
            },
        }
    }
}

/// Where the entries keyed by k are exactly those of the run [a, b), they make up its bucket.
proof fn lemma_bucket_run<E>(s: Seq<(u64, E)>, k: u64, a: int, b: int)
    requires
        0 <= a <= b <= s.len(),
        forall|j: int| 0 <= j < s.len() ==> ((a <= j < b) == (#[trigger] s[j].0 == k)),
    ensures
        bucket_of(s, k) == s.subrange(a, b).map_values(|x: (u64, E)| x.1),
    decreases s.len(),
{
    if s.len() == 0 {
        assert(s.subrange(a, b).map_values(|x: (u64, E)| x.1) =~= Seq::<E>::empty());
    } else {
        let t = s.drop_last();
        let n = s.len() - 1;
        if b == s.len() && a < b {
            assert forall|j: int| 0 <= j < t.len() implies ((a <= j < b - 1) == (#[trigger] t[j].0 == k)) by {
                assert(t[j] == s[j]);
            }
            lemma_bucket_run(t, k, a, b - 1);
            assert(s[n].0 == k);
            assert(s.subrange(a, b).map_values(|x: (u64, E)| x.1) =~= t.subrange(a, b - 1).map_values(
                |x: (u64, E)| x.1,
            ).push(s[n].1));
        } else {
            let b2 = if b == s.len() { n } else { b };
            let a2 = if a > b2 { b2 } else { a };
            assert(s[n].0 != k);
            assert forall|j: int| 0 <= j < t.len() implies ((a2 <= j < b2) == (#[trigger] t[j].0 == k)) by {
                assert(t[j] == s[j]);
            }
            lemma_bucket_run(t, k, a2, b2);
            assert(s.subrange(a, b).map_values(|x: (u64, E)| x.1) =~= t.subrange(a2, b2).map_values(
                |x: (u64, E)| x.1,
            ));
        }
    }
}

/// An item with its key shows up in the bucket of that key as often as it occurs among the
/// entries.
pub proof fn lemma_bucket_count<E>(s: Seq<(u64, E)>, k: u64, e: E)
    ensures
        bucket_of(s, k).to_multiset().count(e) == s.to_multiset().count((k, e)),
    decreases s.len(),
{
    broadcast use vstd::seq_lib::group_to_multiset_ensures;

    if s.len() > 0 {
        let t = s.drop_last();
        lemma_bucket_count(t, k, e);
        assert(s =~= t.push(s.last()));
        vstd::seq_lib::to_multiset_build(t, s.last());
        if s.last().0 == k {
            vstd::seq_lib::to_multiset_build(bucket_of(t, k), s.last().1);
        }
    }
}

/// Entries that are the same up to order give each key the same bucket, up to order.
pub proof fn lemma_same_buckets<E>(s1: Seq<(u64, E)>, s2: Seq<(u64, E)>, k: u64)
    requires
        s1.to_multiset() == s2.to_multiset(),
    ensures
        bucket_of(s1, k).to_multiset() == bucket_of(s2, k).to_multiset(),
{
    assert forall|e: E| #[trigger] bucket_of(s1, k).to_multiset().count(e) == bucket_of(s2, k).to_multiset().count(e) by {
        lemma_bucket_count(s1, k, e);
        lemma_bucket_count(s2, k, e);
    }
    assert(bucket_of(s1, k).to_multiset() =~= bucket_of(s2, k).to_multiset());
}

/// Items at 3d positions, indexed by the 512 x 512 region that holds them; items in one region
/// come in no particular order.
pub struct SpatialQuery<T> {
    index: RegionIndex<(T, IVec3)>,
}

impl<T: Copy> SpatialQuery<T> {
    /// The items in the index, each keyed by the id of its region.
    pub closed spec fn indexed(&self) -> Seq<(u64, (T, IVec3))> {
        self.index.entries@
    }

    /// The items added since the last rebuild, each keyed by the id of its region.
    pub closed spec fn pending(&self) -> Seq<(u64, (T, IVec3))> {
        self.index.next@
    }

    pub closed spec fn wf(&self) -> bool {
        self.index.wf()
    }

    /// An empty index.
    pub fn new() -> (r: SpatialQuery<T>)
        ensures
            r.wf(),
            r.indexed() == Seq::<(u64, (T, IVec3))>::empty(),
            r.pending() == Seq::<(u64, (T, IVec3))>::empty(),
    {
        SpatialQuery { index: RegionIndex::new() }
    }

    /// Add an item at a position. It is not found until `rebuild` is called.
    pub fn push(&mut self, item: T, pos: IVec3)
        requires
            old(self).wf(),
        ensures
            final(self).wf(),
            final(self).indexed() == old(self).indexed(),
            final(self).pending() == old(self).pending().push(
                (region_id_of(IVec2 { x: pos.x, y: pos.z }), (item, pos)),
            ),
    {
        let id = RegionId::new(IVec2 { x: pos.x, y: pos.z });
        self.index.push(id.0, (item, pos));
    }

    /// Index the items added since the last rebuild, in place of the ones indexed before.
    pub fn rebuild(&mut self)
        requires
            old(self).wf(),
        ensures
            final(self).wf(),
            final(self).indexed().to_multiset() == old(self).pending().to_multiset(),
            forall|k: u64| #[trigger] bucket_of(final(self).indexed(), k).to_multiset() == bucket_of(
                old(self).pending(),
                k,
            ).to_multiset(),
            final(self).pending() == Seq::<(u64, (T, IVec3))>::empty(),
    {
        self.index.rebuild();
        proof {
            assert forall|k: u64| #[trigger] bucket_of(self.indexed(), k).to_multiset() == bucket_of(
                old(self).pending(),
                k,
            ).to_multiset() by {
                lemma_same_buckets(self.indexed(), old(self).pending(), k);
            }
        }
    }

    /// The items in a region, with their positions.
    pub fn in_region(&self, id: RegionId) -> (r: Vec<(T, IVec3)>)
        requires
            self.wf(),
        ensures
            r@ == bucket_of(self.indexed(), id.0),
    {
        self.index.get(id.0)
    }
}

impl<T: Copy> Default for SpatialQuery<T> {
    fn default() -> (r: SpatialQuery<T>)
        ensures
            r.wf(),
            r.indexed() == Seq::<(u64, (T, IVec3))>::empty(),
            r.pending() == Seq::<(u64, (T, IVec3))>::empty(),
    {
        SpatialQuery::new()
    }
}

/// Items at 2d positions, indexed by the 512 x 512 region that holds them; items in one region
/// come in no particular order.
pub struct SpatialQuery2d<T> {
    index: RegionIndex<(T, IVec2)>,
}

impl<T: Copy> SpatialQuery2d<T> {
    /// The items in the index, each keyed by the id of its region.
    pub closed spec fn indexed(&self) -> Seq<(u64, (T, IVec2))> {
        self.index.entries@
    }

    /// The items added since the last rebuild, each keyed by the id of its region.
    pub closed spec fn pending(&self) -> Seq<(u64, (T, IVec2))> {
        self.index.next@
    }

    pub closed spec fn wf(&self) -> bool {
        self.index.wf()
    }

    /// An empty index.
    pub fn new() -> (r: SpatialQuery2d<T>)
        ensures
            r.wf(),
            r.indexed() == Seq::<(u64, (T, IVec2))>::empty(),
            r.pending() == Seq::<(u64, (T, IVec2))>::empty(),
    {
        SpatialQuery2d { index: RegionIndex::new() }
    }

    /// Add an item at a position. It is not found until `rebuild` is called.
    pub fn push(&mut self, item: T, pos: IVec2)
        requires
            old(self).wf(),
        ensures
            final(self).wf(),
            final(self).indexed() == old(self).indexed(),
            final(self).pending() == old(self).pending().push((region_id_of(pos), (item, pos))),
    {
        let id = RegionId::new(pos);
        self.index.push(id.0, (item, pos));
    }

    /// Index the items added since the last rebuild, in place of the ones indexed before.
    pub fn rebuild(&mut self)
        requires
            old(self).wf(),
        ensures
            final(self).wf(),
            final(self).indexed().to_multiset() == old(self).pending().to_multiset(),
            forall|k: u64| #[trigger] bucket_of(final(self).indexed(), k).to_multiset() == bucket_of(
                old(self).pending(),
                k,
            ).to_multiset(),
            final(self).pending() == Seq::<(u64, (T, IVec2))>::empty(),
    {
        self.index.rebuild();
        proof {
            assert forall|k: u64| #[trigger] bucket_of(self.indexed(), k).to_multiset() == bucket_of(
                old(self).pending(),
                k,
            ).to_multiset() by {
                lemma_same_buckets(self.indexed(), old(self).pending(), k);
            }
        }
    }

    /// The items in a region, with their positions.
    pub fn in_region(&self, id: RegionId) -> (r: Vec<(T, IVec2)>)
        requires
            self.wf(),
        ensures
            r@ == bucket_of(self.indexed(), id.0),
    {
        self.index.get(id.0)
    }
}

impl<T: Copy> Default for SpatialQuery2d<T> {
    fn default() -> (r: SpatialQuery2d<T>)
        ensures
            r.wf(),
            r.indexed() == Seq::<(u64, (T, IVec2))>::empty(),
            r.pending() == Seq::<(u64, (T, IVec2))>::empty(),
    {
        SpatialQuery2d::new()
    }
}

} // verus!
