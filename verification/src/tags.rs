use vstd::prelude::*;

use crate::registry::RegistryId;

verus! {

/// The value of the null tag, which terminates tag sets.
pub const NULL_TAG: u16 = 0xFFFF;

/// u16 key for a Tag.
#[derive(Copy, Clone, Eq, PartialEq, Ord, PartialOrd, Debug, Hash, Structural)]
pub struct Tag(pub u16);

impl Tag {
    /// The null tag.
    pub fn null() -> (r: Tag)
        ensures
            r.0 == NULL_TAG,
    {
        Tag(NULL_TAG)
    }

    /// The tag of a registry entry; the index is truncated to 16 bits.
    pub fn from_registry_id(value: RegistryId) -> (r: Tag)
        ensures
            r.0 == value.0 as u16,
    {
        Tag(value.0 as u16)
    }

    /// The registry entry of this tag.
    pub fn into_registry_id(self) -> (r: RegistryId)
        ensures
            r.0 == self.0 as usize,
    {
        RegistryId(self.0 as usize)
    }
}

impl Default for Tag {
    fn default() -> (r: Tag)
        ensures
            r.0 == NULL_TAG,
    {
        Tag(NULL_TAG)
    }
}

/// The values of a sequence of tags.
pub open spec fn values(s: Seq<Tag>) -> Seq<u16> {
    s.map_values(|t: Tag| t.0)
}

/// The tags are in ascending order.
pub open spec fn sorted(s: Seq<Tag>) -> bool {
    forall|i: int, j: int| 0 <= i <= j < s.len() ==> s[i].0 <= s[j].0
}

/// A sorted sequence of tags that ends with the null tag.
pub open spec fn terminated(s: Seq<Tag>) -> bool {
    &&& s.len() >= 1
    &&& sorted(s)
    &&& s[s.len() - 1].0 == NULL_TAG
}

/// Whether the tag sequence holds a tag with value `v`.
pub open spec fn has_tag(s: Seq<Tag>, v: u16) -> bool {
    exists|i: int| 0 <= i < s.len() && s[i].0 == v
}

/// The index of the first tag that is not less than `v` in a terminated sequence.
pub open spec fn is_sort_index(s: Seq<Tag>, v: u16, i: int) -> bool {
    &&& 0 <= i < s.len()
    &&& s[i].0 >= v
    &&& forall|j: int| 0 <= j < i ==> s[j].0 < v
}

/// Whether two terminated tag sequences share a tag, as decided by walking both from
/// (i, j) and stopping when either tag is null, or when the bitwise-or of the two tags
/// is all ones.
pub open spec fn merge_intersects(a: Seq<Tag>, b: Seq<Tag>, i: int, j: int) -> bool
    decreases a.len() - i + b.len() - j,
{
    if i < 0 || j < 0 || i >= a.len() || j >= b.len() {
        false
    } else if a[i].0 | b[j].0 == NULL_TAG {
        false
    } else if a[i].0 == b[j].0 {
        true
    } else if a[i].0 > b[j].0 {
        merge_intersects(a, b, i, j + 1)
    } else {
        merge_intersects(a, b, i + 1, j)
    }
}

/// First index whose tag is not less than `tag` in a terminated slice.
fn sort_index_of(s: &[Tag], tag: Tag) -> (r: usize)
    requires
        terminated(s@),
    ensures
        is_sort_index(s@, tag.0, r as int),
{
    let mut i: usize = 0;
    loop
        invariant
            terminated(s@),
            i < s@.len(),
            forall|j: int| 0 <= j < i ==> s@[j].0 < tag.0,
        decreases s@.len() - i,
    {
        if s[i].0 >= tag.0 {
            return i;
        }
        i = i + 1;
    }
}

/// Index of the tag in a terminated slice.
fn index_of_in(s: &[Tag], tag: Tag) -> (r: Option<usize>)
    requires
        terminated(s@),
    ensures
        match r {
            Some(i) => is_sort_index(s@, tag.0, i as int) && s@[i as int].0 == tag.0,
            None => !has_tag(s@, tag.0),
        },
{
    let i = sort_index_of(s, tag);
    if s[i].0 == tag.0 {
        Some(i)
    } else {
        proof {
            if has_tag(s@, tag.0) {
                let k = choose|k: int| 0 <= k < s@.len() && s@[k].0 == tag.0;
                if k > i as int {
                    assert(s@[i as int].0 <= s@[k].0);
                }
            }
        }
        None
    }
}

/// Whether two terminated slices share a tag, walking both in order.
fn intersects_slices(a: &[Tag], b: &[Tag]) -> (r: bool)
    requires
        terminated(a@),
        terminated(b@),
    ensures
        r == merge_intersects(a@, b@, 0, 0),
{
    let mut i: usize = 0;
    let mut j: usize = 0;
    loop
        invariant
            terminated(a@),
            terminated(b@),
            i < a@.len(),
            j < b@.len(),
            merge_intersects(a@, b@, 0, 0) == merge_intersects(a@, b@, i as int, j as int),
        decreases a@.len() - i + b@.len() - j,
    {
        let u = a[i];
        let v = b[j];
        if u.0 | v.0 == NULL_TAG {
            return false;
        }
        if u.0 == v.0 {
            return true;
        } else if u.0 > v.0 {
            proof {
                if j + 1 >= b@.len() {
                    assert(v.0 == NULL_TAG);
                    let x = u.0;
                    assert(x | 0xFFFFu16 == 0xFFFFu16) by (bit_vector);
                }
            }
            j = j + 1;
        } else {
            proof {
                if i + 1 >= a@.len() {
                    assert(u.0 == NULL_TAG);
                    let y = v.0;
                    assert(0xFFFFu16 | y == 0xFFFFu16) by (bit_vector);
                }
            }
            i = i + 1;
        }
    }
}

/// Null-terminated and sorted slice of tags.
pub struct TagSlice<'a>(pub &'a [Tag]);

impl<'a> TagSlice<'a> {
    /// The tags of the slice, terminator included.
    pub open spec fn view(&self) -> Seq<Tag> {
        self.0@
    }

    pub open spec fn wf(&self) -> bool {
        terminated(self.0@)
    }

    /// Whether this slice holds the tag. Always true for the null tag.
    pub fn contains(&self, tag: Tag) -> (r: bool)
        requires
            self.wf(),
        ensures
            r == has_tag(self@, tag.0),
    {
        index_of_in(self.0, tag).is_some()
    }

    /// Whether self and other have any matching tags.
    pub fn intersects(&self, other: &TagSlice) -> (r: bool)
        requires
            self.wf(),
            other.wf(),
        ensures
            r == merge_intersects(self@, other@, 0, 0),
    {
        intersects_slices(self.0, other.0)
    }

    /// Index where the tag could be inserted.
    fn sort_index(&self, tag: Tag) -> (r: usize)
        requires
            self.wf(),
        ensures
            is_sort_index(self@, tag.0, r as int),
    {
        sort_index_of(self.0, tag)
    }

    /// Index of the tag in the slice.
    fn index_of(&self, tag: Tag) -> (r: Option<usize>)
        requires
            self.wf(),
        ensures
            match r {
                Some(i) => is_sort_index(self@, tag.0, i as int) && self@[i as int].0 == tag.0,
                None => !has_tag(self@, tag.0),
            },
    {
        index_of_in(self.0, tag)
    }

    /// The slice truncated so that there is only one null at its end.
    pub fn without_extra_nulls(&self) -> (r: TagSlice<'a>)
        requires
            self.wf(),
        ensures
            r.wf(),
            r@ == self@.subrange(0, r@.len() as int),
            r@.len() >= 1,
            forall|j: int| 0 <= j < r@.len() - 1 ==> #[trigger] r@[j].0 != NULL_TAG,
    {
        let n = self.0.len();
        let i = index_of_in(self.0, Tag(NULL_TAG)).unwrap();
        let s = slice_prefix(self.0, i + 1);
        TagSlice(s)
    }

    /// An iterator over the non-null tags.
    pub fn iter(&self) -> (r: Iter<'a>)
        requires
            self.wf(),
        ensures
            r.wf(),
            r.tags@ == self@,
            r.curr == 0,
    {
        Iter { tags: self.0, curr: 0 }
    }
}

/// The first `n` elements of a slice.
fn slice_prefix<'a>(s: &'a [Tag], n: usize) -> (r: &'a [Tag])
    requires
        n <= s@.len(),
    ensures
        r@ == s@.subrange(0, n as int),
{
    vstd::slice::slice_subrange(s, 0, n)
}

/// Iterator state over the non-null tags of a terminated slice.
pub struct Iter<'a> {
    /// Null-terminated, sorted tag slice.
    pub tags: &'a [Tag],
    pub curr: usize,
}

impl<'a> Iter<'a> {
    pub open spec fn wf(&self) -> bool {
        &&& terminated(self.tags@)
        &&& self.curr < self.tags@.len()
    }

    /// The next non-null tag, or None at the terminator.
    pub fn next(&mut self) -> (r: Option<Tag>)
        requires
            old(self).wf(),
            old(self).curr == 0 || old(self).tags@[old(self).curr - 1].0 != NULL_TAG,
        ensures
            final(self).wf(),
            final(self).tags@ == old(self).tags@,
            old(self).tags@[old(self).curr as int].0 == NULL_TAG ==> r is None && final(self).curr
                == old(self).curr,
            old(self).tags@[old(self).curr as int].0 != NULL_TAG ==> r == Some(
                old(self).tags@[old(self).curr as int],
            ) && final(self).curr == old(self).curr + 1,
    {
        let v = self.tags[self.curr];
        if v.0 == NULL_TAG {
            None
        } else {
            proof {
                if self.curr + 1 >= self.tags@.len() {
                    assert(self.tags@[self.tags@.len() - 1].0 == NULL_TAG);
                }
            }
            self.curr = self.curr + 1;
            Some(v)
        }
    }
}

/// Strictly ascending non-null tags followed by a single null tag.
pub open spec fn strict_set(s: Seq<Tag>) -> bool {
    &&& s.len() >= 1
    &&& s[s.len() - 1].0 == NULL_TAG
    &&& forall|i: int, j: int| 0 <= i < j < s.len() ==> s[i].0 < s[j].0
}

/// Null-terminated, growable, sorted set of Tags.
#[derive(Clone, Debug)]
pub struct TagSet(Vec<Tag>);

impl TagSet {
    /// The tags of the set, terminator included.
    pub closed spec fn view(&self) -> Seq<Tag> {
        self.0@
    }

    pub closed spec fn wf(&self) -> bool {
        strict_set(self.0@)
    }

    /// The set of non-null tag values.
    pub open spec fn tag_set(&self) -> Set<u16> {
        Set::new(|v: u16| v != NULL_TAG && has_tag(self@, v))
    }

    pub fn new() -> (r: TagSet)
        ensures
            r.wf(),
            r@ == seq![Tag(NULL_TAG)],
    {
        TagSet::with_capacity(1)
    }

    pub fn with_capacity(capacity: usize) -> (r: TagSet)
        ensures
            r.wf(),
            r@ == seq![Tag(NULL_TAG)],
    {
        let mut v: Vec<Tag> = Vec::with_capacity(capacity);
        v.push(Tag(NULL_TAG));
        proof {
            assert(v@ =~= seq![Tag(NULL_TAG)]);
        }
        TagSet(v)
    }

    /// The set as a tag slice.
    pub fn as_slice(&self) -> (r: TagSlice<'_>)
        requires
            self.wf(),
        ensures
            r.wf(),
            r@ == self@,
    {
        TagSlice(self.0.as_slice())
    }

    /// Whether or not the tag exists in the set. Always true for the null tag.
    pub fn contains(&self, tag: Tag) -> (r: bool)
        requires
            self.wf(),
        ensures
            r == has_tag(self@, tag.0),
            tag.0 != NULL_TAG ==> (r == self.tag_set().contains(tag.0)),
            tag.0 == NULL_TAG ==> r,
            r == (tag.0 == NULL_TAG || yielded(self@).contains(tag)),
    {
        proof {
            let s = self.0@;
            let n = s.len() as int;
            assert(is_sort_index(s, NULL_TAG, n - 1));
            lemma_first_null(s);
            assert(first_null(s) == n - 1);
            if has_tag(s, tag.0) && tag.0 != NULL_TAG {
                let j = choose|j: int| 0 <= j < s.len() && s[j].0 == tag.0;
                assert(yielded(s)[j] == tag);
            }
            if yielded(s).contains(tag) {
                let j = choose|j: int| 0 <= j < yielded(s).len() && yielded(s)[j] == tag;
                assert(s[j] == tag);
            }
        }
        index_of_in(self.0.as_slice(), tag).is_some()
    }

    /// Insert the tag into the set, returning whether the tag already existed in the set.
    /// Returns false, and changes nothing, if the tag is the null tag.
    pub fn insert(&mut self, tag: Tag) -> (r: bool)
        requires
            old(self).wf(),
        ensures
            final(self).wf(),
            tag.0 == NULL_TAG ==> !r && final(self)@ == old(self)@,
            tag.0 != NULL_TAG ==> r == old(self).tag_set().contains(tag.0),
            tag.0 != NULL_TAG ==> final(self).tag_set() == old(self).tag_set().insert(tag.0),
    {
        if tag.0 == NULL_TAG {
            return false;
        }
        let i = sort_index_of(self.0.as_slice(), tag);
        if self.0[i].0 != tag.0 {
            let ghost old_s = self.0@;
            self.0.insert(i, tag);
            proof {
                assert(self.0@ == old_s.insert(i as int, tag));
                assert forall|a: int, b: int| 0 <= a < b < self.0@.len() implies self.0@[a].0
                    < self.0@[b].0 by {
                    if b < i {
                    } else if a < i && b == i {
                    } else if a < i {
                        assert(old_s[a].0 < old_s[b - 1].0 || a == b - 1);
                    } else if a == i {
                        assert(old_s[i as int].0 <= old_s[b - 1].0);
                    } else {
                    }
                }
                assert(!has_tag(old_s, tag.0)) by {
                    if has_tag(old_s, tag.0) {
                        let k = choose|k: int| 0 <= k < old_s.len() && old_s[k].0 == tag.0;
                        if k > i {
                            assert(old_s[i as int].0 < old_s[k].0);
                        }
                    }
                }
                assert(self.tag_set() =~= old(self).tag_set().insert(tag.0)) by {
                    assert forall|v: u16| #[trigger] self.tag_set().contains(v) <==> old(self).tag_set().insert(tag.0).contains(v) by {
                        if v != NULL_TAG && has_tag(self.0@, v) && v != tag.0 {
                            let k = choose|k: int| 0 <= k < self.0@.len() && self.0@[k].0 == v;
                            if k < i {
                                assert(old_s[k].0 == v);
                            } else {
                                assert(old_s[k - 1].0 == v);
                            }
                        }
                        if v != NULL_TAG && has_tag(old_s, v) {
                            let k = choose|k: int| 0 <= k < old_s.len() && old_s[k].0 == v;
                            if k < i {
                                assert(self.0@[k].0 == v);
                            } else {
                                assert(self.0@[k + 1].0 == v);
                            }
                        }
                        if v == tag.0 {
                            assert(self.0@[i as int].0 == v);
                        }
                    }
                }
            }
            false
        } else {
            proof {
                assert(has_tag(self.0@, tag.0));
                assert(self.tag_set() =~= old(self).tag_set().insert(tag.0));
            }
            true
        }
    }

    /// Remove a tag from the set, returning whether it was removed.
    /// Returns false, and changes nothing, if the tag is the null tag.
    pub fn remove(&mut self, tag: Tag) -> (r: bool)
        requires
            old(self).wf(),
        ensures
            final(self).wf(),
            tag.0 == NULL_TAG ==> !r && final(self)@ == old(self)@,
            tag.0 != NULL_TAG ==> r == old(self).tag_set().contains(tag.0),
            tag.0 != NULL_TAG ==> final(self).tag_set() == old(self).tag_set().remove(tag.0),
    {
        if tag.0 == NULL_TAG {
            return false;
        }
        match index_of_in(self.0.as_slice(), tag) {
            Some(i) => {
                let ghost old_s = self.0@;
                self.0.remove(i);
                proof {
                    assert(self.0@ == old_s.remove(i as int));
                    assert(i < old_s.len() - 1);
                    assert(self.tag_set() =~= old(self).tag_set().remove(tag.0)) by {
                        assert forall|v: u16| #[trigger] self.tag_set().contains(v) <==> old(self).tag_set().remove(tag.0).contains(v) by {
                            if v != NULL_TAG && has_tag(self.0@, v) {
                                let k = choose|k: int| 0 <= k < self.0@.len() && self.0@[k].0 == v;
                                if k < i {
                                    assert(old_s[k].0 == v);
                                } else {
                                    assert(old_s[k + 1].0 == v);
                                    assert(old_s[i as int].0 < old_s[k + 1].0);
                                }
                            }
                            if v != NULL_TAG && v != tag.0 && has_tag(old_s, v) {
                                let k = choose|k: int| 0 <= k < old_s.len() && old_s[k].0 == v;
                                if k < i {
                                    assert(self.0@[k].0 == v);
                                } else {
                                    assert(self.0@[k - 1].0 == v);
                                }
                            }
                        }
                    }
                }
                true
            },
            None => {
                proof {
                    assert(self.tag_set() =~= old(self).tag_set().remove(tag.0));
                }
                false
            },
        }
    }

    /// An iterator over the non-null tags of the set, in ascending order.
    pub fn iter(&self) -> (r: Iter<'_>)
        requires
            self.wf(),
        ensures
            r.wf(),
            r.tags@ == self@,
            r.curr == 0,
    {
        Iter { tags: self.0.as_slice(), curr: 0 }
    }
}

impl Default for TagSet {
    fn default() -> (r: TagSet)
        ensures
            r.wf(),
            r@ == seq![Tag(NULL_TAG)],
    {
        TagSet::new()
    }
}

/// The slots and the returned tag after inserting `tag` into the slots `s` of a fixed set.
pub open spec fn fixed_insert(s: Seq<Tag>, tag: Tag) -> (Seq<Tag>, Option<Tag>) {
    let n = s.len() as int;
    let i = choose|i: int| is_sort_index(s, tag.0, i);
    let shifted = s.insert(i, tag).subrange(0, n);
    if tag.0 == NULL_TAG || s[i].0 == tag.0 || i == n - 1 {
        (s, None)
    } else if shifted[n - 1].0 != NULL_TAG {
        (shifted.update(n - 1, Tag(NULL_TAG)), Some(shifted[n - 1]))
    } else {
        (shifted, None)
    }
}

/// Null-terminated set of tags with a fixed capacity of N slots, one of which is always
/// the null terminator. The slots are sorted in ascending order; unused slots are null.
#[derive(Copy, Clone, Debug)]
pub struct FixedTagSet<const N: usize>([Tag; N]);

impl<const N: usize> FixedTagSet<N> {
    /// The slots of the set.
    pub closed spec fn view(&self) -> Seq<Tag> {
        self.0@
    }

    pub closed spec fn wf(&self) -> bool {
        &&& N >= 1
        &&& terminated(self.0@)
    }

    /// The set has N slots.
    pub proof fn lemma_slots_len(&self)
        ensures
            self@.len() == N,
    {
    }

    /// The set with every slot null.
    pub fn new() -> (r: FixedTagSet<N>)
        requires
            N >= 1,
        ensures
            r.wf(),
            r@ == Seq::new(N as nat, |i: int| Tag(NULL_TAG)),
    {
        let r = FixedTagSet([Tag(NULL_TAG); N]);
        proof {
            assert(r@ =~= Seq::new(N as nat, |i: int| Tag(NULL_TAG)));
        }
        r
    }

    /// The slots of the set as an array.
    pub fn as_array(&self) -> (r: [Tag; N])
        ensures
            r@ == self@,
    {
        self.0
    }

    /// Get the set as a tag slice. The slice is not truncated to the first null tag,
    /// so there may be more than one null tag at its end.
    pub fn as_slice(&self) -> (r: TagSlice<'_>)
        requires
            self.wf(),
        ensures
            r.wf(),
            r@ == self@,
    {
        TagSlice(self.0.as_slice())
    }

    /// The tag in slot `index`.
    pub fn index(&self, index: usize) -> (r: Tag)
        requires
            index < N,
        ensures
            r == self@[index as int],
    {
        self.0[index]
    }

    /// Construct a fixed tag set from a slice of tags: the first N-1 tags are taken,
    /// any further tags are discarded.
    pub fn from_slice(s: &[Tag]) -> (r: FixedTagSet<N>)
        requires
            N >= 1,
        ensures
            r.wf(),
            ({
                let k = if s@.len() < N - 1 { s@.len() as int } else { N - 1 };
                &&& r@.subrange(0, k).to_multiset() == s@.subrange(0, k).to_multiset()
                &&& forall|i: int| k <= i < N ==> #[trigger] r@[i].0 == NULL_TAG
            }),
    {
        Self::from_iter(s)
    }

    /// Construct a fixed tag set from tags in order: the first N-1 tags are taken and sorted,
    /// any further tags are discarded.
    pub fn from_iter(it: &[Tag]) -> (r: FixedTagSet<N>)
        requires
            N >= 1,
        ensures
            r.wf(),
            ({
                let k = if it@.len() < N - 1 { it@.len() as int } else { N - 1 };
                &&& r@.subrange(0, k).to_multiset() == it@.subrange(0, k).to_multiset()
                &&& forall|i: int| k <= i < N ==> #[trigger] r@[i].0 == NULL_TAG
            }),
    {
        let mut ret = Self::new();
        let k: usize = if it.len() < N - 1 {
            it.len()
        } else {
            N - 1
        };
        let mut n: usize = 0;
        proof {
            assert(ret.0@.subrange(0, 0) =~= it@.subrange(0, 0));
        }
        while n < k
            invariant
                N >= 1,
                k <= N - 1,
                k <= it@.len(),
                n <= k,
                sorted(ret.0@.subrange(0, n as int)),
                ret.0@.subrange(0, n as int).to_multiset() == it@.subrange(0, n as int).to_multiset(),
                forall|i: int| n <= i < N ==> #[trigger] ret.0@[i].0 == NULL_TAG,
            decreases k - n,
        {
            let tag = it[n];
            // find the first slot above the new tag within the sorted prefix
            let mut p: usize = 0;
            while p < n && ret.0[p].0 <= tag.0
                invariant
                    p <= n,
                    n < N,
                    forall|j: int| 0 <= j < p ==> ret.0@[j].0 <= tag.0,
                decreases n - p,
            {
                p = p + 1;
            }
            let ghost prefix = ret.0@.subrange(0, n as int);
            // shift the prefix right of p up by one and place the tag
            let mut q: usize = n;
            while q > p
                invariant
                    p <= q <= n,
                    n < N,
                    forall|j: int| 0 <= j < q ==> #[trigger] ret.0@[j] == prefix[j],
                    forall|j: int| q < j <= n ==> #[trigger] ret.0@[j] == prefix[j - 1],
                    forall|j: int| n < j < N ==> #[trigger] ret.0@[j].0 == NULL_TAG,
                decreases q - p,
            {
                ret.0[q] = ret.0[q - 1];
                q = q - 1;
            }
            ret.0[p] = tag;
            proof {
                let np = ret.0@.subrange(0, n + 1);
                assert(np =~= prefix.insert(p as int, tag));
                vstd::seq_lib::to_multiset_insert(prefix, p as int, tag);
                assert(it@.subrange(0, n + 1) =~= it@.subrange(0, n as int).push(tag));
                vstd::seq_lib::to_multiset_build(it@.subrange(0, n as int), tag);
                assert forall|a: int, b: int| 0 <= a <= b < n + 1 implies np[a].0 <= np[b].0 by {
                    if b < p {
                    } else if a < p && b == p {
                    } else if a < p {
                        assert(prefix[a].0 <= prefix[b - 1].0);
                    } else if a == p && b > p {
                        if p < n && !(tag.0 <= prefix[p as int].0) {
                        }
                        assert(prefix[p as int].0 <= prefix[b - 1].0 || b - 1 == p);
                    } else {
                    }
                }
                if p < n {
                    assert(tag.0 < prefix[p as int].0);
                }
            }
            n = n + 1;
        }
        proof {
            assert forall|a: int, b: int| 0 <= a <= b < N implies ret.0@[a].0 <= ret.0@[b].0 by {
                if b >= k as int {
                } else {
                    assert(ret.0@.subrange(0, k as int)[a].0 <= ret.0@.subrange(0, k as int)[b].0);
                }
            }
        }
        ret
    }

    /// Number of non-null tags present in the set.
    pub fn len(&self) -> (r: usize)
        requires
            self.wf(),
        ensures
            is_sort_index(self@, NULL_TAG, r as int),
            self@[r as int].0 == NULL_TAG,
            r < N,
            forall|i: int| 0 <= i < N ==> (#[trigger] self@[i].0 != NULL_TAG <==> i < r),
            r == nonnull_count(self@),
            r == yielded(self@).len(),
    {
        let r = index_of_in(self.0.as_slice(), Tag(NULL_TAG)).unwrap();
        proof {
            lemma_first_null(self@);
            assert forall|i: int| 0 <= i < N implies (#[trigger] self@[i].0 != NULL_TAG <==> i < r) by {
                if i >= r {
                    assert(self@[r as int].0 <= self@[i].0);
                }
            }
        }
        r
    }

    /// Insert a tag into the set. When the set overflows, the largest tag is dropped and
    /// returned, unless the inserted tag would be the one dropped, in which case nothing
    /// changes. Null tags and tags already present are not inserted.
    pub fn insert(&mut self, tag: Tag) -> (r: Option<Tag>)
        requires
            old(self).wf(),
        ensures
            final(self).wf(),
            fixed_insert(old(self)@, tag) == (final(self)@, r),
    {
        let ghost s = self.0@;
        proof {
            self.lemma_sort_index_unique(tag.0);
        }
        if tag.0 == NULL_TAG {
            return None;
        }
        let i = sort_index_of(self.0.as_slice(), tag);
        if self.0[i].0 == tag.0 || i == N - 1 {
            return None;
        }
        let ghost shifted = s.insert(i as int, tag).subrange(0, N as int);
        // make space for the tag
        let mut q: usize = N - 1;
        while q > i
            invariant
                i <= q <= N - 1,
                N >= 1,
                s.len() == N,
                forall|j: int| 0 <= j <= q ==> #[trigger] self.0@[j] == s[j],
                forall|j: int| q < j < N ==> #[trigger] self.0@[j] == s[j - 1],
            decreases q - i,
        {
            self.0[q] = self.0[q - 1];
            q = q - 1;
        }
        self.0[i] = tag;
        proof {
            assert(self.0@ =~= shifted);
            assert forall|a: int, b: int| 0 <= a <= b < N implies shifted[a].0 <= shifted[b].0 by {
                if b < i {
                } else if a < i && b == i {
                } else if a < i {
                    assert(s[a].0 <= s[b - 1].0);
                } else if a == i && b > i {
                    assert(s[i as int].0 <= s[b - 1].0);
                } else {
                }
            }
        }
        // ensure the last element is null
        if self.0[N - 1].0 != NULL_TAG {
            let last = self.0[N - 1];
            self.0[N - 1] = Tag(NULL_TAG);
            proof {
                assert(self.0@ =~= shifted.update(N - 1, Tag(NULL_TAG)));
            }
            Some(last)
        } else {
            None
        }
    }

    proof fn lemma_sort_index_unique(&self, v: u16)
        requires
            self.wf(),
        ensures
            exists|i: int| is_sort_index(self@, v, i),
            forall|i: int, j: int| is_sort_index(self@, v, i) && is_sort_index(self@, v, j) ==> i == j,
    {
        let m = first_ge_index(self@, v, 0);
        assert(is_sort_index(self@, v, m));
    }

    /// Remove a tag from the set, returning whether it existed. Removing the null tag
    /// reports true and leaves the tags as they are.
    pub fn remove(&mut self, tag: Tag) -> (r: bool)
        requires
            old(self).wf(),
        ensures
            final(self).wf(),
            r == has_tag(old(self)@, tag.0),
            !r ==> final(self)@ == old(self)@,
            r ==> ({
                let i = choose|i: int| is_sort_index(old(self)@, tag.0, i);
                final(self)@ == old(self)@.remove(i).push(Tag(NULL_TAG))
            }),
    {
        let ghost s = self.0@;
        proof {
            self.lemma_sort_index_unique(tag.0);
        }
        match index_of_in(self.0.as_slice(), tag) {
            Some(i) => {
                let mut q: usize = i;
                while q < N - 1
                    invariant
                        i <= q <= N - 1,
                        N >= 1,
                        s.len() == N,
                        forall|j: int| 0 <= j < i ==> #[trigger] self.0@[j] == s[j],
                        forall|j: int| i <= j < q ==> #[trigger] self.0@[j] == s[j + 1],
                        forall|j: int| q <= j < N ==> #[trigger] self.0@[j] == s[j],
                    decreases N - 1 - q,
                {
                    self.0[q] = self.0[q + 1];
                    q = q + 1;
                }
                self.0[N - 1] = Tag(NULL_TAG);
                proof {
                    assert(self.0@ =~= s.remove(i as int).push(Tag(NULL_TAG)));
                    assert forall|a: int, b: int| 0 <= a <= b < N implies self.0@[a].0 <= self.0@[b].0 by {
                        if b == N - 1 {
                        } else if a < i && b >= i {
                            assert(s[a].0 <= s[b + 1].0);
                        } else if a >= i {
                            assert(s[a + 1].0 <= s[b + 1].0);
                        }
                    }
                }
                true
            },
            None => false,
        }
    }

    /// Whether or not self and other share any tags, walking both in order.
    pub fn intersects(&self, other: &TagSlice) -> (r: bool)
        requires
            self.wf(),
            other.wf(),
        ensures
            r == merge_intersects(self@, other@, 0, 0),
    {
        intersects_slices(self.0.as_slice(), other.0)
    }

    /// Whether or not the tag is in this set. Always true for the null tag.
    pub fn contains(&self, tag: Tag) -> (r: bool)
        requires
            self.wf(),
        ensures
            r == has_tag(self@, tag.0),
    {
        index_of_in(self.0.as_slice(), tag).is_some()
    }

    /// An iterator over the non-null tags in the set.
    pub fn iter(&self) -> (r: Iter<'_>)
        requires
            self.wf(),
        ensures
            r.wf(),
            r.tags@ == self@,
            r.curr == 0,
    {
        Iter { tags: self.0.as_slice(), curr: 0 }
    }
}

/// Two terminated tag sequences whose non-null tags are below 0x8000 intersect, as decided
/// by `merge_intersects` from (i, j), exactly when they share a non-null tag at or after
/// those positions.
proof fn lemma_merge_intersects_from(a: Seq<Tag>, b: Seq<Tag>, i: int, j: int)
    requires
        terminated(a),
        terminated(b),
        forall|k: int| 0 <= k < a.len() && a[k].0 != NULL_TAG ==> #[trigger] a[k].0 < 0x8000,
        forall|k: int| 0 <= k < b.len() && b[k].0 != NULL_TAG ==> #[trigger] b[k].0 < 0x8000,
        0 <= i < a.len(),
        0 <= j < b.len(),
    ensures
        merge_intersects(a, b, i, j) == exists|k: int, l: int|
            i <= k < a.len() && j <= l < b.len() && a[k].0 == b[l].0 && a[k].0 != NULL_TAG,
    decreases a.len() - i + b.len() - j,
{
    let u = a[i].0;
    let v = b[j].0;
    if u == NULL_TAG || v == NULL_TAG {
        assert(u | v == 0xFFFFu16) by (bit_vector)
            requires
                u == 0xFFFFu16 || v == 0xFFFFu16,
        ;
        if exists|k: int, l: int|
            i <= k < a.len() && j <= l < b.len() && a[k].0 == b[l].0 && a[k].0 != NULL_TAG {
            let (k, l) = choose|k: int, l: int|
                i <= k < a.len() && j <= l < b.len() && a[k].0 == b[l].0 && a[k].0 != NULL_TAG;
            assert(a[i].0 <= a[k].0 && b[j].0 <= b[l].0);
        }
    } else {
        assert(u | v != 0xFFFFu16) by (bit_vector)
            requires
                u < 0x8000u16,
                v < 0x8000u16,
        ;
        if u == v {
            assert(a[i].0 == b[j].0);
        } else if u > v {
            assert(j + 1 < b.len());
            lemma_merge_intersects_from(a, b, i, j + 1);
            if exists|k: int, l: int|
                i <= k < a.len() && j <= l < b.len() && a[k].0 == b[l].0 && a[k].0 != NULL_TAG {
                let (k, l) = choose|k: int, l: int|
                    i <= k < a.len() && j <= l < b.len() && a[k].0 == b[l].0 && a[k].0 != NULL_TAG;
                if l == j {
                    assert(a[i].0 <= a[k].0);
                }
                assert(i <= k < a.len() && j + 1 <= l < b.len() && a[k].0 == b[l].0);
            }
        } else {
            assert(i + 1 < a.len());
            lemma_merge_intersects_from(a, b, i + 1, j);
            if exists|k: int, l: int|
                i <= k < a.len() && j <= l < b.len() && a[k].0 == b[l].0 && a[k].0 != NULL_TAG {
                let (k, l) = choose|k: int, l: int|
                    i <= k < a.len() && j <= l < b.len() && a[k].0 == b[l].0 && a[k].0 != NULL_TAG;
                if k == i {
                    assert(b[j].0 <= b[l].0);
                }
                assert(i + 1 <= k < a.len() && j <= l < b.len() && a[k].0 == b[l].0);
            }
        }
    }
}

/// Two tag slices intersect exactly when they share a non-null tag, provided that
/// their non-null tags are below 0x8000 (fewer than 32768 registered tags).
pub proof fn lemma_intersects_iff_common_tag(a: TagSlice, b: TagSlice)
    requires
        a.wf(),
        b.wf(),
        forall|k: int| 0 <= k < a@.len() && a@[k].0 != NULL_TAG ==> #[trigger] a@[k].0 < 0x8000,
        forall|k: int| 0 <= k < b@.len() && b@[k].0 != NULL_TAG ==> #[trigger] b@[k].0 < 0x8000,
    ensures
        merge_intersects(a@, b@, 0, 0) == exists|k: int, l: int|
            0 <= k < a@.len() && 0 <= l < b@.len() && a@[k].0 == b@[l].0 && a@[k].0 != NULL_TAG,
{
    lemma_merge_intersects_from(a@, b@, 0, 0);
}

/// A non-null tag inserted into a fixed set with a free slot, that does not hold it yet,
/// is in the set afterwards, and no tag is dropped.
pub proof fn lemma_fixed_insert_then_contains(s: Seq<Tag>, tag: Tag)
    requires
        terminated(s),
        s.len() >= 2,
        s[s.len() - 2].0 == NULL_TAG,
        tag.0 != NULL_TAG,
        !has_tag(s, tag.0),
    ensures
        has_tag(fixed_insert(s, tag).0, tag.0),
        fixed_insert(s, tag).1 is None,
        terminated(fixed_insert(s, tag).0),
{
    let n = s.len() as int;
    let m = first_ge_index(s, tag.0, 0);
    assert(exists|i: int| is_sort_index(s, tag.0, i));
    let i = choose|i: int| is_sort_index(s, tag.0, i);
    if i != m {
        if i < m {
            assert(s[i].0 < tag.0);
        } else {
            assert(s[m].0 < tag.0);
        }
    }
    assert(s[i].0 != tag.0);
    if i == n - 1 {
        assert(s[n - 2].0 < tag.0);
    }
    let shifted = s.insert(i, tag).subrange(0, n);
    assert(shifted[i].0 == tag.0);
    assert(shifted[n - 1] == s[n - 2]);
    assert forall|a: int, b: int| 0 <= a <= b < n implies shifted[a].0 <= shifted[b].0 by {
        if b < i {
        } else if a < i && b == i {
        } else if a < i {
            assert(s[a].0 <= s[b - 1].0);
        } else if a == i && b > i {
            assert(s[i].0 <= s[b - 1].0);
        }
    }
}

/// The non-null tag values of a sequence of tags.
pub open spec fn nonnull(s: Seq<Tag>) -> Set<u16> {
    Set::new(|v: u16| v != NULL_TAG && has_tag(s, v))
}

/// Two sequences of tags in ascending order that hold the same tags, counted with their
/// repeats, are the same sequence.
pub proof fn lemma_sorted_unique(a: Seq<Tag>, b: Seq<Tag>)
    requires
        sorted(a),
        sorted(b),
        a.to_multiset() == b.to_multiset(),
    ensures
        a == b,
    decreases a.len(),
{
    broadcast use vstd::seq_lib::group_to_multiset_ensures;

    if a.len() == 0 {
        if b.len() > 0 {
            assert(b.to_multiset().contains(b[0]));
            assert(a.to_multiset().contains(b[0]));
        }
        assert(b.len() == 0);
        assert(a =~= b);
    } else {
        assert(a.to_multiset().contains(a[0]));
        assert(b.to_multiset().contains(a[0]));
        let j = choose|j: int| 0 <= j < b.len() && b[j] == a[0];
        assert(b.len() > 0);
        assert(b.to_multiset().contains(b[0]));
        assert(a.to_multiset().contains(b[0]));
        let k = choose|k: int| 0 <= k < a.len() && a[k] == b[0];
        assert(b[0].0 <= b[j].0);
        assert(a[0].0 <= a[k].0);
        assert(a[0] == b[0]);
        vstd::seq_lib::to_multiset_remove(a, 0);
        vstd::seq_lib::to_multiset_remove(b, 0);
        let a1 = a.remove(0);
        let b1 = b.remove(0);
        assert forall|x: int, y: int| 0 <= x <= y < a1.len() implies a1[x].0 <= a1[y].0 by {
            assert(a[x + 1].0 <= a[y + 1].0);
        }
        assert forall|x: int, y: int| 0 <= x <= y < b1.len() implies b1[x].0 <= b1[y].0 by {
            assert(b[x + 1].0 <= b[y + 1].0);
        }
        lemma_sorted_unique(a1, b1);
        assert(a =~= b) by {
            assert forall|x: int| 0 <= x < a.len() implies a[x] == b[x] by {
                if x > 0 {
                    assert(a[x] == a1[x - 1]);
                    assert(b[x] == b1[x - 1]);
                }
            }
        }
    }
}

/// Slots of a fixed tag set are fixed by the tags their first k slots hold, counted with
/// their repeats, where the other slots are null: so `from_slice` and `from_iter` build the
/// same set from the same tags.
pub proof fn lemma_fixed_slots_unique(a: Seq<Tag>, b: Seq<Tag>, k: int)
    requires
        terminated(a),
        terminated(b),
        a.len() == b.len(),
        0 <= k <= a.len(),
        a.subrange(0, k).to_multiset() == b.subrange(0, k).to_multiset(),
        forall|i: int| k <= i < a.len() ==> #[trigger] a[i].0 == NULL_TAG,
        forall|i: int| k <= i < b.len() ==> #[trigger] b[i].0 == NULL_TAG,
    ensures
        a == b,
{
    let a0 = a.subrange(0, k);
    let b0 = b.subrange(0, k);
    assert forall|x: int, y: int| 0 <= x <= y < a0.len() implies a0[x].0 <= a0[y].0 by {
        assert(a[x].0 <= a[y].0);
    }
    assert forall|x: int, y: int| 0 <= x <= y < b0.len() implies b0[x].0 <= b0[y].0 by {
        assert(b[x].0 <= b[y].0);
    }
    lemma_sorted_unique(a0, b0);
    assert forall|i: int| 0 <= i < a.len() implies a[i] == b[i] by {
        if i < k {
            assert(a[i] == a0[i] && b[i] == b0[i]);
        } else {
            assert(a[i].0 == b[i].0);
        }
    }
    assert(a =~= b);
}

/// What inserting into a fixed tag set whose tags are distinct does to its tags: a null tag or
/// one already present changes nothing; otherwise, where a slot is free, the tag is added; where none is, the
/// largest of the old tags and the new one is left out, and returned unless it is the new
/// tag itself.
pub proof fn lemma_fixed_insert_set(s: Seq<Tag>, tag: Tag)
    requires
        terminated(s),
        s.len() >= 2,
        forall|a: int, b: int| 0 <= a < b < s.len() && s[a].0 != NULL_TAG ==> s[a].0 < s[b].0,
    ensures
        ({
            let (t, r) = fixed_insert(s, tag);
            let n = s.len() as int;
            &&& terminated(t)
            &&& t.len() == n
            &&& (tag.0 == NULL_TAG || has_tag(s, tag.0)) ==> t == s && r is None
            &&& (tag.0 != NULL_TAG && !has_tag(s, tag.0) && s[n - 2].0 == NULL_TAG) ==> nonnull(t)
                == nonnull(s).insert(tag.0) && r is None
            &&& (tag.0 != NULL_TAG && !has_tag(s, tag.0) && s[n - 2].0 != NULL_TAG) ==> ({
                let m = if tag.0 > s[n - 2].0 { tag.0 } else { s[n - 2].0 };
                &&& forall|v: u16| #[trigger] nonnull(s).insert(tag.0).contains(v) ==> v <= m
                &&& nonnull(s).insert(tag.0).contains(m)
                &&& nonnull(t) == nonnull(s).insert(tag.0).remove(m)
                &&& r == (if m == tag.0 { None } else { Some(Tag(m)) })
            })
        }),
{
    let n = s.len() as int;
    let m0 = first_ge_index(s, tag.0, 0);
    assert(exists|i: int| is_sort_index(s, tag.0, i));
    let i = choose|i: int| is_sort_index(s, tag.0, i);
    if i != m0 {
        if i < m0 {
            assert(s[i].0 < tag.0);
        } else {
            assert(s[m0].0 < tag.0);
        }
    }
    let (t, r) = fixed_insert(s, tag);
    if tag.0 == NULL_TAG {
    } else if has_tag(s, tag.0) {
        let j = choose|j: int| 0 <= j < s.len() && s[j].0 == tag.0;
        if s[i].0 != tag.0 {
            if j < i {
                assert(s[j].0 < tag.0);
            } else {
                assert(s[i].0 <= s[j].0);
            }
        }
    } else if i == n - 1 {
        // every tag is below the new one
        assert(s[n - 2].0 < tag.0);
        assert forall|v: u16| #[trigger] nonnull(s).insert(tag.0).contains(v) implies v <= tag.0 by {
            if v != tag.0 {
                let j = choose|j: int| 0 <= j < s.len() && s[j].0 == v;
                assert(j < n - 1);
            }
        }
        assert(nonnull(s).insert(tag.0).remove(tag.0) =~= nonnull(s));
    } else {
        assert(s[i].0 != tag.0);
        assert(s[i].0 > tag.0);
        let shifted = s.insert(i, tag).subrange(0, n);
        let sp = s.subrange(0, n - 1);
        let hp = shifted.subrange(0, n - 1);
        assert forall|a: int, b: int| 0 <= a <= b < n implies shifted[a].0 <= shifted[b].0 by {
            if b < i {
            } else if a < i && b == i {
            } else if a < i {
                assert(s[a].0 <= s[b - 1].0);
            } else if a == i && b > i {
                assert(s[i].0 <= s[b - 1].0);
            }
        }
        assert(shifted[n - 1] == s[n - 2]);
        // the tags of shifted are those of s without its last slot, and the new tag
        assert forall|v: u16| #[trigger] has_tag(shifted, v) <==> (v == tag.0 || has_tag(sp, v)) by {
            if has_tag(shifted, v) {
                let j = choose|j: int| 0 <= j < n && shifted[j].0 == v;
                if j < i {
                    assert(sp[j].0 == v);
                } else if j > i {
                    assert(sp[j - 1].0 == v);
                }
            }
            if v == tag.0 {
                assert(shifted[i].0 == v);
            } else if has_tag(sp, v) {
                let j = choose|j: int| 0 <= j < n - 1 && sp[j].0 == v;
                if j < i {
                    assert(shifted[j].0 == v);
                } else {
                    assert(shifted[j + 1].0 == v);
                }
            }
        }
        assert forall|v: u16| v != NULL_TAG implies (#[trigger] has_tag(sp, v) <==> has_tag(s, v)) by {
            if has_tag(s, v) {
                let j = choose|j: int| 0 <= j < n && s[j].0 == v;
                assert(j < n - 1);
                assert(sp[j].0 == v);
            }
            if has_tag(sp, v) {
                let j = choose|j: int| 0 <= j < n - 1 && sp[j].0 == v;
                assert(s[j].0 == v);
            }
        }
        if s[n - 2].0 == NULL_TAG {
            assert(t == shifted);
            assert(nonnull(t) =~= nonnull(s).insert(tag.0));
        } else {
            let m = s[n - 2].0;
            assert(s[i].0 <= s[n - 2].0);
            let t2 = shifted.update(n - 1, Tag(NULL_TAG));
            assert(t == t2);
            assert forall|v: u16| #[trigger] nonnull(s).insert(tag.0).contains(v) implies v <= m by {
                if v != tag.0 {
                    let j = choose|j: int| 0 <= j < s.len() && s[j].0 == v;
                    assert(j < n - 1);
                    assert(s[j].0 <= s[n - 2].0);
                }
            }
            assert(has_tag(s, m));
            assert forall|v: u16| #[trigger] has_tag(t2, v) && v != NULL_TAG <==> (has_tag(shifted, v) && v != NULL_TAG && (v != m || has_tag(hp, v))) by {
                if has_tag(t2, v) && v != NULL_TAG {
                    let j = choose|j: int| 0 <= j < n && t2[j].0 == v;
                    assert(j < n - 1);
                    assert(shifted[j].0 == v);
                    assert(hp[j].0 == v);
                }
                if has_tag(shifted, v) && v != NULL_TAG && (v != m || has_tag(hp, v)) {
                    if v != m {
                        let j = choose|j: int| 0 <= j < n && shifted[j].0 == v;
                        assert(j != n - 1);
                        assert(t2[j].0 == v);
                    } else {
                        let j = choose|j: int| 0 <= j < n - 1 && hp[j].0 == v;
                        assert(t2[j].0 == v);
                    }
                }
            }
            // m occurs once in shifted: below it are only smaller tags
            assert(!has_tag(hp, m)) by {
                if has_tag(hp, m) {
                    let j = choose|j: int| 0 <= j < n - 1 && hp[j].0 == m;
                    if j < i {
                        assert(s[j].0 < s[n - 2].0);
                    } else if j == i {
                        assert(tag.0 < m);
                    } else {
                        assert(shifted[j] == s[j - 1]);
                        assert(s[j - 1].0 < s[n - 2].0);
                    }
                }
            }
            assert(nonnull(t) =~= nonnull(s).insert(tag.0).remove(m));
        }
    }
}

/// Where iterating a terminated sequence stops: the index of its first null tag.
pub open spec fn first_null(s: Seq<Tag>) -> int {
    choose|i: int| is_sort_index(s, NULL_TAG, i)
}

/// The tags that iterating a terminated sequence yields: those before its first null tag.
pub open spec fn yielded(s: Seq<Tag>) -> Seq<Tag> {
    s.take(first_null(s))
}

/// The number of slots that hold a tag.
pub open spec fn nonnull_count(s: Seq<Tag>) -> nat
    decreases s.len(),
{
    if s.len() == 0 {
        0
    } else {
        nonnull_count(s.drop_last()) + if s.last().0 != NULL_TAG {
            1nat
        } else {
            0nat
        }
    }
}

proof fn lemma_nonnull_count_prefix(s: Seq<Tag>, k: int)
    requires
        0 <= k <= s.len(),
        forall|i: int| 0 <= i < s.len() ==> (#[trigger] s[i].0 != NULL_TAG <==> i < k),
    ensures
        nonnull_count(s) == k,
    decreases s.len(),
{
    if s.len() > 0 {
        let d = s.drop_last();
        if k == s.len() {
            assert forall|i: int| 0 <= i < d.len() implies (#[trigger] d[i].0 != NULL_TAG <==> i < k - 1) by {
                assert(d[i] == s[i]);
            }
            lemma_nonnull_count_prefix(d, k - 1);
        } else {
            assert forall|i: int| 0 <= i < d.len() implies (#[trigger] d[i].0 != NULL_TAG <==> i < k) by {
                assert(d[i] == s[i]);
            }
            lemma_nonnull_count_prefix(d, k);
        }
    }
}

/// In a terminated sequence the first null tag ends the tags: every slot before it holds a
/// tag and every slot from it on is null, so the tags number `first_null(s)`. With the
/// contract of `Iter::next`, an iterator from the start yields `yielded(s)`, one tag per call,
/// and then None.
pub proof fn lemma_first_null(s: Seq<Tag>)
    requires
        terminated(s),
    ensures
        is_sort_index(s, NULL_TAG, first_null(s)),
        forall|i: int| is_sort_index(s, NULL_TAG, i) ==> i == first_null(s),
        forall|i: int| 0 <= i < s.len() ==> (#[trigger] s[i].0 != NULL_TAG <==> i < first_null(s)),
        nonnull_count(s) == first_null(s),
        yielded(s).len() == first_null(s),
{
    let m = first_ge_index(s, NULL_TAG, 0);
    assert(is_sort_index(s, NULL_TAG, m));
    let k = first_null(s);
    assert forall|i: int| is_sort_index(s, NULL_TAG, i) implies i == k by {
        if i < k {
            assert(s[i].0 < NULL_TAG);
        } else if i > k {
            assert(s[k].0 < NULL_TAG);
        }
    }
    assert forall|i: int| 0 <= i < s.len() implies (#[trigger] s[i].0 != NULL_TAG <==> i < k) by {
        if i >= k {
            assert(s[k].0 <= s[i].0);
        }
    }
    lemma_nonnull_count_prefix(s, k);
}

/// The tags of a terminated sequence whose tags are distinct number `first_null(s)`.
proof fn lemma_nonnull_len(s: Seq<Tag>)
    requires
        terminated(s),
        forall|a: int, b: int| 0 <= a < b < s.len() && s[a].0 != NULL_TAG ==> s[a].0 < s[b].0,
    ensures
        nonnull(s).finite(),
        nonnull(s).len() == first_null(s),
{
    lemma_first_null(s);
    let k = first_null(s);
    let vs = values(s.take(k));
    assert(vs.no_duplicates()) by {
        assert forall|a: int, b: int| 0 <= a < vs.len() && 0 <= b < vs.len() && a != b implies vs[a] != vs[b] by {
            if a < b {
                assert(s[a].0 < s[b].0);
            } else {
                assert(s[b].0 < s[a].0);
            }
        }
    }
    assert(vs.to_set() =~= nonnull(s)) by {
        assert forall|v: u16| #[trigger] nonnull(s).contains(v) implies vs.to_set().contains(v) by {
            let j = choose|j: int| 0 <= j < s.len() && s[j].0 == v;
            assert(vs[j] == v);
        }
        assert forall|v: u16| #[trigger] vs.to_set().contains(v) implies nonnull(s).contains(v) by {
            let j = choose|j: int| 0 <= j < vs.len() && vs[j] == v;
            assert(s[j].0 == v);
        }
    }
    vs.unique_seq_to_set();
}

/// What inserting into a fixed tag set of n slots whose tags are distinct does to its tags,
/// with S the old tags and the new one: a null tag or one already present changes nothing;
/// where S has at most n - 1 tags, the tags become S; where it has more, the largest m of S is
/// left out, and returned unless it is the new tag itself.
pub proof fn lemma_fixed_insert_overflow(s: Seq<Tag>, tag: Tag)
    requires
        terminated(s),
        s.len() >= 2,
        forall|a: int, b: int| 0 <= a < b < s.len() && s[a].0 != NULL_TAG ==> s[a].0 < s[b].0,
    ensures
        ({
            let (t, r) = fixed_insert(s, tag);
            let n = s.len() as int;
            let big = nonnull(s).insert(tag.0);
            &&& terminated(t)
            &&& t.len() == n
            &&& big.finite()
            &&& (tag.0 == NULL_TAG || has_tag(s, tag.0)) ==> t == s && r is None
            &&& (tag.0 != NULL_TAG && !has_tag(s, tag.0) && big.len() <= n - 1) ==> nonnull(t) == big
                && r is None
            &&& (tag.0 != NULL_TAG && !has_tag(s, tag.0) && big.len() > n - 1) ==> exists|m: u16|
                #![trigger big.contains(m)]
                {
                    &&& big.contains(m)
                    &&& forall|v: u16| #[trigger] big.contains(v) ==> v <= m
                    &&& nonnull(t) == big.remove(m)
                    &&& r == (if m == tag.0 {
                        None
                    } else {
                        Some(Tag(m))
                    })
                }
        }),
{
    lemma_fixed_insert_set(s, tag);
    lemma_nonnull_len(s);
    lemma_first_null(s);
    let n = s.len() as int;
    let k = first_null(s);
    let big = nonnull(s).insert(tag.0);
    if tag.0 != NULL_TAG && !has_tag(s, tag.0) {
        assert(!nonnull(s).contains(tag.0));
        assert(big.len() == k + 1);
        assert(s[n - 2].0 == NULL_TAG <==> k <= n - 2);
        if big.len() > n - 1 {
            let m = if tag.0 > s[n - 2].0 { tag.0 } else { s[n - 2].0 };
            assert(big.contains(m));
        }
    }
}

/// The first index at or after `from` whose tag is not less than v, given that every tag
/// before `from` is less than v.
proof fn first_ge_index(s: Seq<Tag>, v: u16, from: int) -> (m: int)
    requires
        terminated(s),
        0 <= from < s.len(),
        forall|j: int| 0 <= j < from ==> s[j].0 < v,
    ensures
        is_sort_index(s, v, m),
    decreases s.len() - from,
{
    if s[from].0 >= v {
        from
    } else {
        first_ge_index(s, v, from + 1)
    }
}

} // verus!
