use vstd::prelude::*;

verus! {

/// An index of an entry in a Registry.
#[derive(Copy, Clone, Eq, PartialEq, Debug, Hash, Structural)]
pub struct RegistryId(pub usize);

impl From<usize> for RegistryId {
    fn from(value: usize) -> (r: RegistryId)
        ensures
            r.0 == value,
    {
        RegistryId(value)
    }
}

impl vstd::std_specs::convert::FromSpecImpl<usize> for RegistryId {
    open spec fn obeys_from_spec() -> bool {
        true
    }

    open spec fn from_spec(v: usize) -> RegistryId {
        RegistryId(v)
    }
}

impl RegistryId {
    /// The id of the registry entry with the same index as a channel.
    pub fn from_channel(value: crate::packet::ChannelId) -> (r: RegistryId)
        ensures
            r.0 == value.0,
    {
        RegistryId(value.0)
    }

    /// The channel with the same index as the entry.
    pub fn into_channel(self) -> (r: crate::packet::ChannelId)
        ensures
            r.0 == self.0,
    {
        crate::packet::ChannelId(self.0)
    }
}

/// An entry of a registry: an item, its unique name and its index.
pub struct Entry<T> {
    pub item: T,
    pub name: String,
    pub id: RegistryId,
}

/// The names of the entries, in order.
pub open spec fn entry_names<T>(entries: Seq<Entry<T>>) -> Seq<Seq<char>> {
    entries.map_values(|e: Entry<T>| e.name@)
}

/// The text of each string.
pub open spec fn texts(list: Seq<String>) -> Seq<Seq<char>> {
    list.map_values(|x: String| x@)
}

/// The indices below j of the entries whose flag is not set, ascending.
pub open spec fn unseen(seen: Seq<bool>, j: nat) -> Seq<int>
    decreases j,
{
    if j == 0 {
        Seq::empty()
    } else if seen[j - 1] {
        unseen(seen, (j - 1) as nat)
    } else {
        unseen(seen, (j - 1) as nat).push(j - 1)
    }
}

/// The flags of the entries whose names occur in `to`.
pub open spec fn named_in(names: Seq<Seq<char>>, to: Seq<Seq<char>>) -> Seq<bool> {
    Seq::new(names.len(), |i: int| to.contains(names[i]))
}

/// The index in names of the first occurrence of name.
pub open spec fn index_in(names: Seq<Seq<char>>, name: Seq<char>) -> int {
    choose|i: int| 0 <= i < names.len() && #[trigger] names[i] == name
}

/// Where each entry comes from after making a registry with these names compliant to `to`: the
/// entries named by `to`, in its order, then the others, in their order.
pub open spec fn compliant_sources(names: Seq<Seq<char>>, to: Seq<Seq<char>>) -> Seq<int> {
    to.map_values(|t: Seq<char>| index_in(names, t)) + unseen(named_in(names, to), names.len())
}

/// Whether a registry with these names can be made compliant to `to`: every name of `to` is in
/// the registry, and no name occurs twice in `to`.
pub open spec fn can_comply(names: Seq<Seq<char>>, to: Seq<Seq<char>>) -> bool {
    &&& forall|k: int| 0 <= k < to.len() ==> names.contains(#[trigger] to[k])
    &&& forall|a: int, b: int| 0 <= a < b < to.len() ==> #[trigger] to[a] != #[trigger] to[b]
}

/// Registry names that a remote has and this registry does not, and names the remote listed more
/// than once. Each name occurs once in each list, in the order of its first occurrence.
#[derive(Debug)]
pub struct RegistryComplianceErrors {
    /// Names that exist on the remote but not here.
    pub mismatches: Vec<String>,
    /// Names that occurred more than once in the remote's list.
    pub duplicates: Vec<String>,
}

/// Whether two strings hold the same text.
fn same_text(a: &str, b: &str) -> (r: bool)
    ensures
        r == (a@ == b@),
{
    a.to_owned() == b.to_owned()
}

/// Whether a list of strings holds this text.
fn list_has(list: &Vec<String>, s: &str) -> (r: bool)
    ensures
        r == texts(list@).contains(s@),
{
    let mut i: usize = 0;
    while i < list.len()
        invariant
            i <= list@.len(),
            forall|k: int| 0 <= k < i ==> list@[k]@ != s@,
        decreases list@.len() - i,
    {
        if same_text(list[i].as_str(), s) {
            assert(texts(list@)[i as int] == s@);
            return true;
        }
        i = i + 1;
    }
    proof {
        if texts(list@).contains(s@) {
            let k = choose|k: int| 0 <= k < list@.len() && #[trigger] texts(list@)[k] == s@;
            assert(list@[k]@ == s@);
        }
    }
    false
}

/// Items that can be found by index or by name. Entries are inserted, never removed; their
/// order can change to match a remote registry.
pub struct Registry<T> {
    entries: Vec<Entry<T>>,
}

impl<T> Registry<T> {
    pub closed spec fn entries_view(&self) -> Seq<Entry<T>> {
        self.entries@
    }

    /// The names of the entries, by index.
    pub open spec fn names(&self) -> Seq<Seq<char>> {
        entry_names(self.entries_view())
    }

    pub closed spec fn wf(&self) -> bool {
        &&& forall|i: int| 0 <= i < self.entries@.len() ==> (#[trigger] self.entries@[i]).id.0 == i
        &&& forall|i: int, j: int|
            0 <= i < j < self.entries@.len() ==> #[trigger] self.entries@[i].name@
                != #[trigger] self.entries@[j].name@
    }

    /// In a well-formed registry each entry's id is its index.
    pub proof fn lemma_ids(&self)
        requires
            self.wf(),
        ensures
            forall|i: int| 0 <= i < self.entries_view().len() ==> (#[trigger] self.entries_view()[i]).id.0 == i,
    {
    }

    /// An empty registry.
    pub fn new() -> (r: Registry<T>)
        ensures
            r.wf(),
            r.entries_view() == Seq::<Entry<T>>::empty(),
    {
        Registry { entries: Vec::new() }
    }

    /// The number of entries.
    pub fn len(&self) -> (r: usize)
        ensures
            r == self.entries_view().len(),
    {
        self.entries.len()
    }

    /// The id of the entry with this name, if there is one.
    pub fn resolve(&self, name: &str) -> (r: Option<RegistryId>)
        requires
            self.wf(),
        ensures
            match r {
                Some(id) => id.0 < self.entries_view().len() && self.names()[id.0 as int] == name@,
                None => !self.names().contains(name@),
            },
    {
        let mut i: usize = 0;
        while i < self.entries.len()
            invariant
                i <= self.entries@.len(),
                forall|k: int| 0 <= k < i ==> self.entries@[k].name@ != name@,
            decreases self.entries@.len() - i,
        {
            if same_text(self.entries[i].name.as_str(), name) {
                return Some(RegistryId(i));
            }
            i = i + 1;
        }
        proof {
            if self.names().contains(name@) {
                let k = choose|k: int| 0 <= k < self.names().len() && #[trigger] self.names()[k] == name@;
                assert(self.entries@[k].name@ == name@);
            }
        }
        None
    }

    /// The entry with this id, if it exists.
    pub fn get(&self, id: RegistryId) -> (r: Option<&Entry<T>>)
        ensures
            id.0 < self.entries_view().len() ==> r == Some(&self.entries_view()[id.0 as int]),
            id.0 >= self.entries_view().len() ==> r is None,
    {
        if id.0 < self.entries.len() {
            Some(&self.entries[id.0])
        } else {
            None
        }
    }

    /// The entry with this id, if it exists, to change. The registry stays well-formed where
    /// the entry keeps its name and id.
    pub fn get_mut(&mut self, id: RegistryId) -> (r: Option<&mut Entry<T>>)
        ensures
            id.0 < old(self).entries_view().len() ==> (r matches Some(e) && *e == old(self).entries_view()[id.0 as int]
                && final(self).entries_view() == old(self).entries_view().update(id.0 as int, *final(e))
                && (old(self).wf() && final(e).id == e.id && final(e).name@ == e.name@ ==> final(self).wf())),
            id.0 >= old(self).entries_view().len() ==> r is None && *final(self) == *old(self),
    {
        if id.0 < self.entries.len() {
            proof {
                let old_entries = self.entries@;
                assert forall|e: Entry<T>|
                    #![trigger old_entries.update(id.0 as int, e)]
                    e.id == old_entries[id.0 as int].id && e.name@ == old_entries[id.0 as int].name@ && {
                    &&& forall|i: int| 0 <= i < old_entries.len() ==> (#[trigger] old_entries[i]).id.0 == i
                    &&& forall|i: int, j: int|
                        0 <= i < j < old_entries.len() ==> #[trigger] old_entries[i].name@
                            != #[trigger] old_entries[j].name@
                } implies {
                    let n = old_entries.update(id.0 as int, e);
                    &&& forall|i: int| 0 <= i < n.len() ==> (#[trigger] n[i]).id.0 == i
                    &&& forall|i: int, j: int|
                        0 <= i < j < n.len() ==> #[trigger] n[i].name@ != #[trigger] n[j].name@
                } by {
                    let n = old_entries.update(id.0 as int, e);
                    assert forall|i: int, j: int| 0 <= i < j < n.len() implies #[trigger] n[i].name@
                        != #[trigger] n[j].name@ by {
                        assert(n[i].name@ == old_entries[i].name@);
                        assert(n[j].name@ == old_entries[j].name@);
                    }
                }
            }
            Some(&mut self.entries[id.0])
        } else {
            None
        }
    }

    /// The entry with this name, if it exists.
    pub fn get_by_name(&self, name: &str) -> (r: Option<&Entry<T>>)
        requires
            self.wf(),
        ensures
            match r {
                Some(e) => e.name@ == name@ && self.entries_view().contains(*e),
                None => !self.names().contains(name@),
            },
    {
        match self.resolve(name) {
            Some(id) => Some(&self.entries[id.0]),
            None => None,
        }
    }

    /// The entries, by index.
    pub fn entries(&self) -> (r: &[Entry<T>])
        ensures
            r@ == self.entries_view(),
    {
        self.entries.as_slice()
    }

    /// The items of the entries, by index.
    pub fn iter(&self) -> (r: Vec<&T>)
        ensures
            r@.len() == self.entries_view().len(),
            forall|k: int| 0 <= k < r@.len() ==> *(#[trigger] r@[k]) == self.entries_view()[k].item,
    {
        let mut v: Vec<&T> = Vec::new();
        let mut i: usize = 0;
        while i < self.entries.len()
            invariant
                i <= self.entries@.len(),
                v@.len() == i,
                forall|k: int| 0 <= k < i ==> *(#[trigger] v@[k]) == self.entries@[k].item,
            decreases self.entries@.len() - i,
        {
            v.push(&self.entries[i].item);
            i = i + 1;
        }
        v
    }

    /// The names of the entries, by index.
    pub fn get_names(&self) -> (r: Vec<String>)
        ensures
            texts(r@) == self.names(),
    {
        let mut v: Vec<String> = Vec::new();
        let mut i: usize = 0;
        while i < self.entries.len()
            invariant
                i <= self.entries@.len(),
                v@.len() == i,
                forall|k: int| 0 <= k < i ==> #[trigger] v@[k]@ == self.entries@[k].name@,
            decreases self.entries@.len() - i,
        {
            let nm = self.entries[i].name.clone();
            assert(nm@ == self.entries@[i as int].name@);
            v.push(nm);
            i = i + 1;
        }
        assert(texts(v@) =~= entry_names(self.entries@));
        v
    }

    /// Insert an item under a name. An entry with that name gets the item in place of its old
    /// one and keeps its id; otherwise a new entry is added at the end.
    pub fn insert(&mut self, name: &str, item: T) -> (r: RegistryId)
        requires
            old(self).wf(),
        ensures
            final(self).wf(),
            old(self).names().contains(name@) ==> ({
                &&& r.0 < old(self).entries_view().len()
                &&& old(self).names()[r.0 as int] == name@
                &&& final(self).entries_view() == old(self).entries_view().update(
                    r.0 as int,
                    Entry { item, name: old(self).entries_view()[r.0 as int].name, id: r },
                )
            }),
            !old(self).names().contains(name@) ==> ({
                &&& r.0 == old(self).entries_view().len()
                &&& final(self).entries_view().len() == old(self).entries_view().len() + 1
                &&& final(self).entries_view().subrange(0, r.0 as int) == old(self).entries_view()
                &&& final(self).entries_view()[r.0 as int].item == item
                &&& final(self).entries_view()[r.0 as int].name@ == name@
                &&& final(self).entries_view()[r.0 as int].id == r
            }),
    {
        match self.resolve(name) {
            Some(id) => {
                let ghost old_entries = self.entries@;
                let e = &mut self.entries[id.0];
                e.item = item;
                proof {
                    assert forall|i: int, j: int| 0 <= i < j < self.entries@.len() implies #[trigger] self.entries@[i].name@
                        != #[trigger] self.entries@[j].name@ by {
                        assert(old_entries[i].name@ != old_entries[j].name@);
                    }
                }
                id
            },
            None => {
                let id = RegistryId(self.entries.len());
                self.entries.push(Entry { item, name: name.to_owned(), id });
                proof {
                    assert forall|i: int, j: int| 0 <= i < j < self.entries@.len() implies #[trigger] self.entries@[i].name@
                        != #[trigger] self.entries@[j].name@ by {
                        if j == id.0 {
                            assert(old(self).names()[i] == self.entries@[i].name@);
                        }
                    }
                    assert(self.entries@.subrange(0, id.0 as int) =~= old(self).entries@);
                }
                id
            },
        }
    }

    /// Insert an item under a name that no entry has, returning its id. If an entry has the
    /// name, the item is given back in an Err.
    pub fn insert_nonoverwriting(&mut self, name: &str, item: T) -> (r: Result<RegistryId, T>)
        requires
            old(self).wf(),
        ensures
            final(self).wf(),
            old(self).names().contains(name@) ==> r == Err::<RegistryId, T>(item)
                && final(self).entries_view() == old(self).entries_view(),
            !old(self).names().contains(name@) ==> ({
                &&& r == Ok::<RegistryId, T>(RegistryId(old(self).entries_view().len() as usize))
                &&& final(self).entries_view().len() == old(self).entries_view().len() + 1
                &&& final(self).entries_view().subrange(0, old(self).entries_view().len() as int)
                    == old(self).entries_view()
                &&& final(self).entries_view().last().item == item
                &&& final(self).entries_view().last().name@ == name@
                &&& final(self).entries_view().last().id.0 == old(self).entries_view().len()
            }),
    {
        if self.resolve(name).is_some() {
            return Err(item);
        }
        let id = RegistryId(self.entries.len());
        self.entries.push(Entry { item, name: name.to_owned(), id });
        proof {
            assert forall|i: int, j: int| 0 <= i < j < self.entries@.len() implies #[trigger] self.entries@[i].name@
                != #[trigger] self.entries@[j].name@ by {
                if j == id.0 {
                    assert(old(self).names()[i] == self.entries@[i].name@);
                }
            }
            assert(self.entries@.subrange(0, id.0 as int) =~= old(self).entries@);
        }
        Ok(id)
    }
}

proof fn lemma_unseen(seen: Seq<bool>, j: nat)
    requires
        j <= seen.len(),
    ensures
        forall|k: int| 0 <= k < unseen(seen, j).len() ==> 0 <= #[trigger] unseen(seen, j)[k] < j
            && !seen[unseen(seen, j)[k]],
        forall|x: int| 0 <= x < j && !seen[x] ==> #[trigger] unseen(seen, j).contains(x),
        forall|a: int, b: int|
            0 <= a < b < unseen(seen, j).len() ==> #[trigger] unseen(seen, j)[a] < #[trigger] unseen(
                seen,
                j,
            )[b],
    decreases j,
{
    if j > 0 {
        lemma_unseen(seen, (j - 1) as nat);
        let prev = unseen(seen, (j - 1) as nat);
        let cur = unseen(seen, j);
        if seen[j - 1] {
            assert(cur == prev);
        } else {
            assert(cur == prev.push(j - 1));
            assert forall|x: int| 0 <= x < j && !seen[x] implies #[trigger] cur.contains(x) by {
                if x == j - 1 {
                    assert(cur[prev.len() as int] == x);
                } else {
                    assert(prev.contains(x));
                    let k = choose|k: int| 0 <= k < prev.len() && #[trigger] prev[k] == x;
                    assert(cur[k] == prev[k]);
                }
            }
        }
    }
}

/// Whether x occurs at least twice in s.
pub open spec fn occurs_twice(s: Seq<Seq<char>>, x: Seq<char>) -> bool {
    exists|a: int, b: int| 0 <= a < b < s.len() && #[trigger] s[a] == x && #[trigger] s[b] == x
}

proof fn lemma_push_contains<A>(s: Seq<A>, v: A, x: A)
    ensures
        s.push(v).contains(x) <==> (s.contains(x) || x == v),
{
    if s.push(v).contains(x) {
        let k = choose|k: int| 0 <= k < s.push(v).len() && s.push(v)[k] == x;
        if k < s.len() {
            assert(s[k] == x);
        }
    }
    if s.contains(x) {
        let k = choose|k: int| 0 <= k < s.len() && s[k] == x;
        assert(s.push(v)[k] == x);
    }
    if x == v {
        assert(s.push(v)[s.len() as int] == x);
    }
}

proof fn lemma_texts_push(v: Seq<String>, s: String)
    ensures
        texts(v.push(s)) == texts(v).push(s@),
{
    assert(texts(v.push(s)) =~= texts(v).push(s@));
}

proof fn lemma_occurs_twice_push(s: Seq<Seq<char>>, t: Seq<char>, x: Seq<char>)
    ensures
        occurs_twice(s.push(t), x) <==> (occurs_twice(s, x) || (x == t && s.contains(t))),
{
    let q = s.push(t);
    if occurs_twice(q, x) {
        let (a, b) = choose|a: int, b: int| 0 <= a < b < q.len() && #[trigger] q[a] == x && #[trigger] q[b] == x;
        if b < s.len() {
            assert(s[a] == x && s[b] == x);
        } else {
            assert(s[a] == x);
        }
    }
    if occurs_twice(s, x) {
        let (a, b) = choose|a: int, b: int| 0 <= a < b < s.len() && #[trigger] s[a] == x && #[trigger] s[b] == x;
        assert(q[a] == x && q[b] == x);
    }
    if x == t && s.contains(t) {
        let a = choose|a: int| 0 <= a < s.len() && s[a] == t;
        assert(q[a] == x && q[s.len() as int] == x);
    }
}

/// A list can comply after one more name exactly when it could before, the name is in the
/// registry, and the list did not have it yet.
proof fn lemma_can_comply_push(names: Seq<Seq<char>>, pre: Seq<Seq<char>>, t: Seq<char>)
    ensures
        can_comply(names, pre.push(t)) <==> (can_comply(names, pre) && names.contains(t)
            && !pre.contains(t)),
{
    let q = pre.push(t);
    if can_comply(names, q) {
        assert forall|k: int| 0 <= k < pre.len() implies names.contains(#[trigger] pre[k]) by {
            assert(q[k] == pre[k]);
        }
        assert forall|a: int, b: int| 0 <= a < b < pre.len() implies #[trigger] pre[a] != #[trigger] pre[b] by {
            assert(q[a] == pre[a] && q[b] == pre[b]);
        }
        assert(names.contains(q[pre.len() as int]));
        if pre.contains(t) {
            let k = choose|k: int| 0 <= k < pre.len() && pre[k] == t;
            assert(q[k] == q[pre.len() as int]);
        }
    }
    if can_comply(names, pre) && names.contains(t) && !pre.contains(t) {
        assert forall|k: int| 0 <= k < q.len() implies names.contains(#[trigger] q[k]) by {
            if k < pre.len() {
                assert(q[k] == pre[k]);
            }
        }
        assert forall|a: int, b: int| 0 <= a < b < q.len() implies #[trigger] q[a] != #[trigger] q[b] by {
            if b < pre.len() {
                assert(q[a] == pre[a] && q[b] == pre[b]);
            } else {
                assert(q[a] == pre[a]);
                assert(pre[a] != t);
            }
        }
    }
}

/// With distinct names, the index of a name is the one position that holds it.
proof fn lemma_index_in(names: Seq<Seq<char>>, i: int)
    requires
        0 <= i < names.len(),
        forall|a: int, b: int| 0 <= a < b < names.len() ==> #[trigger] names[a] != #[trigger] names[b],
    ensures
        index_in(names, names[i]) == i,
{
    let k = index_in(names, names[i]);
    assert(0 <= k < names.len() && names[k] == names[i]);
    if k < i {
        assert(names[k] != names[i]);
    } else if k > i {
        assert(names[i] != names[k]);
    }
}

impl<T> Registry<T> {
    /// The sources of a compliant order are a permutation of the entries' indices.
    proof fn lemma_sources_permutation(
        &self,
        names: Seq<Seq<char>>,
        tt: Seq<Seq<char>>,
        first: Seq<usize>,
        sources: Seq<usize>,
        seen: Seq<bool>,
    )
        requires
            self.wf(),
            names == self.names(),
            can_comply(names, tt),
            seen == named_in(names, tt),
            first.len() == tt.len(),
            forall|k: int| 0 <= k < tt.len() ==> #[trigger] first[k] == index_in(names, tt[k]),
            sources.len() == first.len() + unseen(seen, names.len()).len(),
            forall|k: int| 0 <= k < first.len() ==> #[trigger] sources[k] == first[k],
            forall|k: int| 0 <= k < unseen(seen, names.len()).len() ==> #[trigger] sources[first.len() + k] == unseen(seen, names.len())[k],
        ensures
            ({
                let src = compliant_sources(names, tt);
                &&& src.len() == names.len()
                &&& sources.len() == names.len()
                &&& forall|k: int| 0 <= k < src.len() ==> #[trigger] sources[k] as int == src[k]
                &&& forall|a: int, b: int| 0 <= a < b < src.len() ==> #[trigger] src[a] != #[trigger] src[b]
                &&& forall|k: int| 0 <= k < src.len() ==> 0 <= #[trigger] src[k] < names.len()
            }),
    {
        let n = names.len();
        let src = compliant_sources(names, tt);
        let u = unseen(seen, n);
        lemma_unseen(seen, n);
        let fm = tt.map_values(|t: Seq<char>| index_in(names, t));
        assert(src == fm + u);
        assert forall|a: int, b: int| 0 <= a < b < names.len() implies #[trigger] names[a] != #[trigger] names[b] by {
            assert(self.entries_view()[a].name@ != self.entries_view()[b].name@);
        }
        // each name of tt has an index
        assert forall|k: int| 0 <= k < tt.len() implies 0 <= #[trigger] fm[k] < n && names[fm[k]] == tt[k] && seen[fm[k]] by {
            assert(names.contains(tt[k]));
            assert(tt.contains(tt[k]));
        }
        assert forall|k: int| 0 <= k < src.len() implies #[trigger] sources[k] as int == src[k] && 0 <= src[k] < n by {
            if k < fm.len() {
                assert(src[k] == fm[k]);
            } else {
                assert(src[k] == u[k - fm.len()]);
                assert(sources[fm.len() + (k - fm.len())] == u[k - fm.len()]);
            }
        }
        assert forall|a: int, b: int| 0 <= a < b < src.len() implies #[trigger] src[a] != #[trigger] src[b] by {
            if b < fm.len() {
                assert(tt[a] != tt[b]);
                assert(names[fm[a]] == tt[a] && names[fm[b]] == tt[b]);
            } else if a < fm.len() {
                assert(seen[fm[a]]);
                assert(!seen[u[b - fm.len()]]);
            } else {
                assert(u[a - fm.len()] < u[b - fm.len()]);
            }
        }
        // the sources cover every index, so there are n of them
        assert(src.no_duplicates()) by {
            assert forall|a: int, b: int| 0 <= a < src.len() && 0 <= b < src.len() && a != b implies src[a] != src[b] by {
                if a < b {
                    assert(src[a] != src[b]);
                } else {
                    assert(src[b] != src[a]);
                }
            }
        }
        src.unique_seq_to_set();
        vstd::set_lib::lemma_int_range(0, n as int);
        assert forall|x: int| #[trigger] src.to_set().contains(x) <==> vstd::set_lib::set_int_range(0, n as int).contains(x) by {
            if 0 <= x < n {
                if seen[x] {
                    assert(tt.contains(names[x]));
                    let k = choose|k: int| 0 <= k < tt.len() && tt[k] == names[x];
                    lemma_index_in(names, x);
                    assert(src[k] == x);
                } else {
                    assert(u.contains(x));
                    let k = choose|k: int| 0 <= k < u.len() && u[k] == x;
                    assert(src[fm.len() + k] == x);
                }
            }
            if src.to_set().contains(x) {
                assert(src.contains(x));
            }
        }
        assert(src.to_set() =~= vstd::set_lib::set_int_range(0, n as int));
    }

    /// Reorder the entries to match a remote registry's names, `to`: the entry named by
    /// `to[i]` gets index i, and the entries that `to` does not name follow, in their order.
    /// Fails, changing nothing, if `to` names an entry this registry does not have or names
    /// one twice.
    pub fn make_compliant(&mut self, to: &Vec<String>) -> (r: Result<(), RegistryComplianceErrors>)
        requires
            old(self).wf(),
        ensures
            final(self).wf(),
            r is Ok <==> can_comply(old(self).names(), texts(to@)),
            r is Err ==> final(self).entries_view() == old(self).entries_view(),
            r is Ok ==> ({
                let src = compliant_sources(old(self).names(), texts(to@));
                &&& final(self).entries_view().len() == old(self).entries_view().len()
                &&& src.len() == old(self).entries_view().len()
                &&& forall|d: int|
                    0 <= d < final(self).entries_view().len() ==> {
                        &&& #[trigger] final(self).entries_view()[d].item == old(self).entries_view()[src[d]].item
                        &&& final(self).entries_view()[d].name == old(self).entries_view()[src[d]].name
                        &&& final(self).entries_view()[d].id.0 == d
                    }
            }),
            r matches Err(e) ==> ({
                &&& forall|x: Seq<char>| #[trigger] texts(e.mismatches@).contains(x) <==> (texts(to@).contains(x) && !old(self).names().contains(x))
                &&& forall|x: Seq<char>| #[trigger] texts(e.duplicates@).contains(x) <==> (old(self).names().contains(x) && occurs_twice(texts(to@), x))
            }),
    {
        let n = self.entries.len();
        let ghost names = self.names();
        let ghost tt = texts(to@);
        let mut seen: Vec<bool> = Vec::new();
        let mut j: usize = 0;
        while j < n
            invariant
                j <= n,
                seen@ == Seq::new(j as nat, |k: int| false),
            decreases n - j,
        {
            seen.push(false);
            j = j + 1;
            assert(seen@ =~= Seq::new(j as nat, |k: int| false));
        }
        let mut sources: Vec<usize> = Vec::new();
        let mut mismatches: Vec<String> = Vec::new();
        let mut duplicates: Vec<String> = Vec::new();
        let mut i: usize = 0;
        while i < to.len()
            invariant
                self.wf(),
                *self == *old(self),
                n == self.entries@.len(),
                names == self.names(),
                tt == texts(to@),
                i <= to@.len(),
                seen@.len() == n,
                forall|k: int| 0 <= k < n ==> (#[trigger] seen@[k] <==> tt.subrange(0, i as int).contains(names[k])),
                (mismatches@.len() == 0 && duplicates@.len() == 0) <==> can_comply(names, tt.subrange(0, i as int)),
                (mismatches@.len() == 0 && duplicates@.len() == 0) ==> sources@.len() == i && forall|k: int| 0 <= k < i ==> #[trigger] sources@[k] == index_in(names, tt[k]),
                forall|x: Seq<char>| #[trigger] texts(mismatches@).contains(x) <==> (tt.subrange(0, i as int).contains(x) && !names.contains(x)),
                forall|x: Seq<char>| #[trigger] texts(duplicates@).contains(x) <==> (names.contains(x) && occurs_twice(tt.subrange(0, i as int), x)),
            decreases to@.len() - i,
        {
            let t = to[i].as_str();
            let ghost pre = tt.subrange(0, i as int);
            assert(tt.subrange(0, i + 1) =~= pre.push(t@));
            let ghost old_seen = seen@;
            let ghost old_dup = duplicates@;
            let ghost old_mis = mismatches@;
            proof {
                assert(tt[i as int] == t@);
                assert forall|x: Seq<char>| #[trigger] occurs_twice(tt.subrange(0, i + 1), x) <==> (occurs_twice(pre, x) || (x == t@ && pre.contains(t@))) by {
                    lemma_occurs_twice_push(pre, t@, x);
                }
                assert forall|x: Seq<char>| #[trigger] tt.subrange(0, i + 1).contains(x) <==> (pre.contains(x) || x == t@) by {
                    lemma_push_contains(pre, t@, x);
                }
                lemma_can_comply_push(names, pre, t@);
            }
            match self.resolve(t) {
                Some(id) => {
                    proof {
                        assert(names[id.0 as int] == t@);
                        assert forall|k: int| 0 <= k < n && k != id.0 implies names[k] != t@ by {
                            if k < id.0 {
                                assert(self.entries@[k].name@ != self.entries@[id.0 as int].name@);
                            } else {
                                assert(self.entries@[id.0 as int].name@ != self.entries@[k].name@);
                            }
                        }
                    }
                    if seen[id.0] {
                        if !list_has(&duplicates, t) {
                            let c = to[i].clone();
                            proof {
                                lemma_texts_push(duplicates@, c);
                                assert forall|x: Seq<char>| #[trigger] texts(duplicates@.push(c)).contains(x) <==> (texts(duplicates@).contains(x) || x == t@) by {
                                    lemma_push_contains(texts(duplicates@), t@, x);
                                }
                            }
                            duplicates.push(c);
                        }
                    } else {
                        seen.set(id.0, true);
                    }
                    sources.push(id.0);
                    proof {
                        lemma_index_in(names, id.0 as int);
                    }
                },
                None => {
                    if !list_has(&mismatches, t) {
                        let c = to[i].clone();
                        proof {
                            lemma_texts_push(mismatches@, c);
                            assert forall|x: Seq<char>| #[trigger] texts(mismatches@.push(c)).contains(x) <==> (texts(mismatches@).contains(x) || x == t@) by {
                                lemma_push_contains(texts(mismatches@), t@, x);
                            }
                        }
                        mismatches.push(c);
                    }
                },
            }
            i = i + 1;
        }
        proof {
            assert(tt.subrange(0, i as int) =~= tt);
        }
        if mismatches.len() != 0 || duplicates.len() != 0 {
            return Err(RegistryComplianceErrors { mismatches, duplicates });
        }
        let ghost first = sources@;
        let ghost m = first.len();
        proof {
            assert(can_comply(names, tt));
            assert(seen@ =~= named_in(names, tt));
            lemma_unseen(seen@, 0);
        }
        let mut j: usize = 0;
        while j < n
            invariant
                j <= n,
                n == names.len(),
                seen@ == named_in(names, tt),
                m == first.len(),
                sources@.len() == m + unseen(seen@, j as nat).len(),
                forall|k: int| 0 <= k < m ==> #[trigger] sources@[k] == first[k],
                forall|k: int| 0 <= k < unseen(seen@, j as nat).len() ==> #[trigger] sources@[m + k] == unseen(seen@, j as nat)[k],
            decreases n - j,
        {
            let ghost before = sources@;
            if !seen[j] {
                sources.push(j);
                assert(unseen(seen@, (j + 1) as nat) == unseen(seen@, j as nat).push(j as int));
            } else {
                assert(unseen(seen@, (j + 1) as nat) == unseen(seen@, j as nat));
            }
            j = j + 1;
        }
        let ghost src = compliant_sources(names, tt);
        proof {
            self.lemma_sources_permutation(names, tt, first, sources@, seen@);
        }
        // take the entries out, last first
        let mut slots: Vec<Option<Entry<T>>> = Vec::new();
        let ghost old_entries = self.entries@;
        while self.entries.len() > 0
            invariant
                n == old_entries.len(),
                slots@.len() + self.entries@.len() == n,
                self.entries@ == old_entries.subrange(0, n - slots@.len()),
                forall|k: int| 0 <= k < slots@.len() ==> #[trigger] slots@[k] == Some(old_entries[n - 1 - k]),
            decreases self.entries@.len(),
        {
            let e = self.entries.pop().unwrap();
            slots.push(Some(e));
            assert(self.entries@ =~= old_entries.subrange(0, n - slots@.len()));
        }
        let mut new_entries: Vec<Entry<T>> = Vec::new();
        let mut d: usize = 0;
        while d < n
            invariant
                d <= n,
                n == old_entries.len(),
                slots@.len() == n,
                sources@.len() == n,
                src.len() == n,
                forall|k: int| 0 <= k < n ==> #[trigger] sources@[k] as int == src[k],
                forall|a: int, b: int| 0 <= a < b < n ==> #[trigger] src[a] != #[trigger] src[b],
                forall|k: int| 0 <= k < n ==> 0 <= #[trigger] src[k] < n,
                forall|k: int| 0 <= k < n ==> (#[trigger] slots@[k] is Some <==> !src.subrange(0, d as int).contains(n - 1 - k)),
                forall|k: int| 0 <= k < n && slots@[k] is Some ==> #[trigger] slots@[k] == Some(old_entries[n - 1 - k]),
                new_entries@.len() == d,
                forall|k: int| 0 <= k < d ==> {
                    &&& (#[trigger] new_entries@[k]).item == old_entries[src[k]].item
                    &&& new_entries@[k].name == old_entries[src[k]].name
                    &&& new_entries@[k].id.0 == k
                },
            decreases n - d,
        {
            let s = sources[d];
            let ghost before_slots = slots@;
            proof {
                assert(!src.subrange(0, d as int).contains(s as int)) by {
                    if src.subrange(0, d as int).contains(s as int) {
                        let e = choose|e: int| 0 <= e < d && #[trigger] src.subrange(0, d as int)[e] == s as int;
                        assert(src[e] == src[d as int]);
                    }
                }
                assert(n - 1 - (n - 1 - s) == s);
            }
            let mut slot: Option<Entry<T>> = None;
            std::mem::swap(&mut slots[n - 1 - s], &mut slot);
            let mut e = slot.unwrap();
            e.id = RegistryId(d);
            new_entries.push(e);
            proof {
                assert forall|k: int| 0 <= k < n implies (#[trigger] slots@[k] is Some <==> !src.subrange(0, d + 1).contains(n - 1 - k)) by {
                    lemma_push_contains(src.subrange(0, d as int), src[d as int], n - 1 - k);
                    assert(src.subrange(0, d + 1) =~= src.subrange(0, d as int).push(src[d as int]));
                }
            }
            d = d + 1;
        }
        self.entries = new_entries;
        proof {
            assert forall|a: int, b: int| 0 <= a < b < self.entries@.len() implies #[trigger] self.entries@[a].name@
                != #[trigger] self.entries@[b].name@ by {
                assert(src[a] != src[b]);
                if src[a] < src[b] {
                    assert(old_entries[src[a]].name@ != old_entries[src[b]].name@);
                } else {
                    assert(old_entries[src[b]].name@ != old_entries[src[a]].name@);
                }
            }
        }
        Ok(())
    }
}

impl<T> Default for Registry<T> {
    fn default() -> (r: Registry<T>)
        ensures
            r.entries_view() == Seq::<Entry<T>>::empty(),
    {
        Registry::new()
    }
}

} // verus!
