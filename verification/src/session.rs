use vstd::prelude::*;

verus! {

/// A session key: the low 12 bits are a slot index, the high 52 bits a tag.
#[derive(Copy, Clone, Eq, PartialEq, Ord, PartialOrd, Debug, Default, Structural)]
pub struct Session(pub u64);

impl Session {
    /// The session with index and tag zero.
    pub fn zero() -> (r: Session)
        ensures
            r.0 == 0,
    {
        Session(0)
    }

    /// A session from a slot index (its low 12 bits are kept) and a tag (shifted up by 12 bits).
    pub fn new(index: usize, tag: u64) -> (r: Session)
        ensures
            r.0 == ((index & 0xFFF) as u64) | ((tag << 12u64) as u64),
    {
        Session(((index & 0xFFF) as u64) | (tag << 12u64))
    }

    /// The slot index of the session: its low 12 bits.
    pub fn index(self) -> (r: usize)
        ensures
            r == self.0 & 0xFFF,
            r < 4096,
    {
        let x = self.0;
        proof {
            assert(x & 0xFFF < 4096) by (bit_vector);
        }
        (self.0 & 0xFFF) as usize
    }

    /// The tag of the session: its high 52 bits, in place.
    pub fn tag(self) -> (r: u64)
        ensures
            r == self.0 & !0xFFFu64,
    {
        self.0 & !0xFFFu64
    }

    /// The session as little-endian bytes.
    pub fn to_le_bytes(self) -> (r: [u8; 8])
        ensures
            forall|k: int| 0 <= k < 8 ==> #[trigger] r@[k] == ((self.0 >> (8 * k) as u64) & 0xFF) as u8,
    {
        let x = self.0;
        let r = [
            (x & 0xFF) as u8,
            ((x >> 8u64) & 0xFF) as u8,
            ((x >> 16u64) & 0xFF) as u8,
            ((x >> 24u64) & 0xFF) as u8,
            ((x >> 32u64) & 0xFF) as u8,
            ((x >> 40u64) & 0xFF) as u8,
            ((x >> 48u64) & 0xFF) as u8,
            ((x >> 56u64) & 0xFF) as u8,
        ];
        proof {
            assert(x >> 0u64 == x) by (bit_vector);
            assert forall|k: int| 0 <= k < 8 implies #[trigger] r@[k] == ((x >> (8 * k) as u64) & 0xFF) as u8 by {
                if k == 0 {
                } else if k == 1 {
                } else if k == 2 {
                } else if k == 3 {
                } else if k == 4 {
                } else if k == 5 {
                } else if k == 6 {
                } else {
                }
            }
        }
        r
    }
}

/// A session built from an index below 4096 gives that index back, and its tag is the
/// given tag shifted up by 12 bits.
pub proof fn lemma_session_new_parts(index: usize, tag: u64)
    requires
        index < 4096,
    ensures
        (((index & 0xFFF) as u64) | ((tag << 12u64) as u64)) & 0xFFF == index,
        (((index & 0xFFF) as u64) | ((tag << 12u64) as u64)) & !0xFFFu64 == (tag << 12u64) as u64,
{
    let i = index as u64;
    assert(i & 0xFFF == i) by (bit_vector)
        requires
            i < 4096,
    ;
    assert(index & 0xFFF == index) by (bit_vector)
        requires
            index < 4096,
    ;
    assert((i | ((tag << 12u64) as u64)) & 0xFFF == i && (i | ((tag << 12u64) as u64)) & !0xFFFu64 == (
    tag << 12u64) as u64) by (bit_vector)
        requires
            i < 4096,
    ;
}

/// One slot of a session map.
#[derive(Clone, Debug)]
pub enum Slot<V> {
    Empty,
    Occupied { key: Session, value: V },
}

impl<V> Slot<V> {
    pub fn is_empty(&self) -> (r: bool)
        ensures
            r == (*self is Empty),
    {
        match self {
            Slot::Empty => true,
            Slot::Occupied { .. } => false,
        }
    }
}

/// The number of occupied slots.
pub open spec fn occupied_count<V>(s: Seq<Slot<V>>) -> nat
    decreases s.len(),
{
    if s.len() == 0 {
        0
    } else {
        occupied_count(s.drop_last()) + if s.last() is Occupied {
            1nat
        } else {
            0nat
        }
    }
}

/// The occupied slots' sessions and values, in slot order.
pub open spec fn occupied_entries<V>(s: Seq<Slot<V>>) -> Seq<(Session, V)>
    decreases s.len(),
{
    if s.len() == 0 {
        Seq::empty()
    } else {
        let rest = occupied_entries(s.drop_last());
        match s.last() {
            Slot::Occupied { key, value } => rest.push((key, value)),
            Slot::Empty => rest,
        }
    }
}

/// The value stored for the session, if its slot holds that session.
pub open spec fn lookup<V>(slots: Seq<Slot<V>>, session: Session) -> Option<V> {
    let i = (session.0 & 0xFFF) as int;
    if i < slots.len() {
        match slots[i] {
            Slot::Occupied { key, value } => if key == session {
                Some(value)
            } else {
                None
            },
            Slot::Empty => None,
        }
    } else {
        None
    }
}

proof fn lemma_count_update<V>(s: Seq<Slot<V>>, i: int, v: Slot<V>)
    requires
        0 <= i < s.len(),
    ensures
        occupied_count(s.update(i, v)) + (if s[i] is Occupied {
            1nat
        } else {
            0nat
        }) == occupied_count(s) + (if v is Occupied {
            1nat
        } else {
            0nat
        }),
    decreases s.len(),
{
    if i == s.len() - 1 {
        assert(s.update(i, v).drop_last() =~= s.drop_last());
    } else {
        lemma_count_update(s.drop_last(), i, v);
        assert(s.update(i, v).drop_last() =~= s.drop_last().update(i, v));
    }
}

proof fn lemma_count_take<V>(s: Seq<Slot<V>>, n: int)
    requires
        0 <= n <= s.len(),
    ensures
        occupied_count(s.take(n)) <= occupied_count(s),
    decreases s.len(),
{
    if n < s.len() {
        lemma_count_take(s.drop_last(), n);
        assert(s.drop_last().take(n) =~= s.take(n));
    } else {
        assert(s.take(n) =~= s);
    }
}

proof fn lemma_count_push_empty<V>(s: Seq<Slot<V>>)
    ensures
        occupied_count(s.push(Slot::Empty)) == occupied_count(s),
{
    assert(s.push(Slot::Empty).drop_last() =~= s);
}

/// A map from sessions to values, with one slot per session index.
#[derive(Clone, Debug)]
pub struct SessionMap<V> {
    slots: Vec<Slot<V>>,
    len: usize,
}

impl<V> SessionMap<V> {
    /// The slots of the map, by session index.
    pub closed spec fn slots(&self) -> Seq<Slot<V>> {
        self.slots@
    }

    /// The counter of entries that the map keeps.
    pub closed spec fn count(&self) -> nat {
        self.len as nat
    }

    /// The counter is never below the number of occupied slots.
    pub closed spec fn wf(&self) -> bool {
        occupied_count(self.slots@) <= self.len
    }

    pub fn new() -> (r: SessionMap<V>)
        ensures
            r.wf(),
            r.slots() == Seq::<Slot<V>>::empty(),
            r.count() == 0,
    {
        SessionMap { slots: Vec::new(), len: 0 }
    }

    /// The counter of entries.
    pub fn len(&self) -> (r: usize)
        ensures
            r == self.count(),
    {
        self.len
    }

    /// The value stored for this session.
    pub fn get(&self, session: Session) -> (r: Option<&V>)
        ensures
            match r {
                Some(v) => lookup(self.slots(), session) == Some(*v),
                None => lookup(self.slots(), session) is None,
            },
    {
        let i = session.index();
        if i < self.slots.len() {
            match &self.slots[i] {
                Slot::Occupied { key, value } => if *key == session {
                    Some(value)
                } else {
                    None
                },
                Slot::Empty => None,
            }
        } else {
            None
        }
    }

    /// A mutable reference to the value stored for this session.
    pub fn get_mut(&mut self, session: Session) -> (r: Option<&mut V>)
        ensures
            match r {
                Some(v) => lookup(old(self).slots(), session) == Some(*v) && final(self).slots()
                    == old(self).slots().update(
                    (session.0 & 0xFFF) as int,
                    Slot::Occupied { key: session, value: *final(v) },
                ) && final(self).count() == old(self).count(),
                None => lookup(old(self).slots(), session) is None && *final(self) == *old(self),
            },
            old(self).wf() ==> final(self).wf(),
    {
        let i = session.index();
        proof {
            if i < self.slots@.len() && self.slots@[i as int] is Occupied {
                assert forall|v: V| #[trigger] occupied_count(
                    self.slots@.update(i as int, Slot::Occupied { key: session, value: v }),
                ) <= occupied_count(self.slots@) by {
                    lemma_count_update(self.slots@, i as int, Slot::Occupied { key: session, value: v });
                }
            }
        }
        if self.contains(session) {
            match &mut self.slots[i] {
                Slot::Occupied { value, .. } => Some(value),
                Slot::Empty => None,
            }
        } else {
            None
        }
    }

    /// A mutable reference to the value of this session, storing the value that `f` makes
    /// first if there is none.
    pub fn get_or_insert(&mut self, session: Session, f: impl FnOnce() -> V) -> (r: &mut V)
        requires
            old(self).wf(),
            lookup(old(self).slots(), session) is None ==> (session.0 & 0xFFF) <= old(
                self,
            ).slots().len() && old(self).count() < usize::MAX && call_requires(f, ()),
        ensures
            final(self).wf(),
            lookup(final(self).slots(), session) == Some(*final(r)),
            lookup(old(self).slots(), session) matches Some(v) ==> *r == v && final(self).slots()
                == old(self).slots().update(
                (session.0 & 0xFFF) as int,
                Slot::Occupied { key: session, value: *final(r) },
            ),
            lookup(old(self).slots(), session) is None ==> call_ensures(f, (), *r),
            lookup(old(self).slots(), session) is Some ==> forall|s2: Session|
                s2 != session ==> #[trigger] lookup(final(self).slots(), s2) == lookup(
                    old(self).slots(),
                    s2,
                ),
            lookup(old(self).slots(), session) is None ==> forall|s2: Session|
                (s2.0 & 0xFFF) < (session.0 & 0xFFF) ==> #[trigger] lookup(final(self).slots(), s2)
                    == lookup(old(self).slots(), s2),
            forall|s2: Session|
                s2 != session && (s2.0 & 0xFFF) == (session.0 & 0xFFF) ==> #[trigger] lookup(
                    final(self).slots(),
                    s2,
                ) is None,
    {
        if !self.contains(session) {
            let v = f();
            self.insert(session, v);
        }
        let r = self.get_mut(session);
        r.unwrap()
    }

    /// Each session that has a value, with its value, in slot order.
    pub fn iter(&self) -> (r: Vec<(Session, &V)>)
        ensures
            r@.len() == occupied_entries(self.slots()).len(),
            forall|i: int|
                0 <= i < r@.len() ==> (#[trigger] r@[i]).0 == occupied_entries(self.slots())[i].0
                    && *r@[i].1 == occupied_entries(self.slots())[i].1,
    {
        let mut r: Vec<(Session, &V)> = Vec::new();
        let mut i: usize = 0;
        while i < self.slots.len()
            invariant
                i <= self.slots@.len(),
                r@.len() == occupied_entries(self.slots@.subrange(0, i as int)).len(),
                forall|j: int|
                    0 <= j < r@.len() ==> (#[trigger] r@[j]).0 == occupied_entries(
                        self.slots@.subrange(0, i as int),
                    )[j].0 && *r@[j].1 == occupied_entries(self.slots@.subrange(0, i as int))[j].1,
            decreases self.slots@.len() - i,
        {
            let ghost before = self.slots@.subrange(0, i as int);
            assert(self.slots@.subrange(0, i + 1).drop_last() =~= before);
            match &self.slots[i] {
                Slot::Occupied { key, value } => {
                    r.push((*key, value));
                },
                Slot::Empty => {},
            }
            i = i + 1;
        }
        assert(self.slots@.subrange(0, self.slots@.len() as int) =~= self.slots@);
        r
    }

    /// Whether this session has a value.
    pub fn contains(&self, session: Session) -> (r: bool)
        ensures
            r == lookup(self.slots(), session) is Some,
    {
        let i = session.index();
        if i < self.slots.len() {
            match &self.slots[i] {
                Slot::Occupied { key, .. } => *key == session,
                Slot::Empty => false,
            }
        } else {
            false
        }
    }

    /// Store a value for this session in the slot of its index. The slots above that index
    /// are dropped. If another session occupied the slot, it is returned with its value.
    pub fn insert(&mut self, session: Session, value: V) -> (r: Option<(Session, V)>)
        requires
            old(self).wf(),
            (session.0 & 0xFFF) <= old(self).slots().len(),
            lookup(old(self).slots(), session) is None,
            old(self).count() < usize::MAX,
        ensures
            final(self).wf(),
            ({
                let i = (session.0 & 0xFFF) as int;
                let kept = if i < old(self).slots().len() {
                    old(self).slots().take(i + 1)
                } else {
                    old(self).slots().push(Slot::Empty)
                };
                &&& final(self).slots() == kept.update(i, Slot::Occupied { key: session, value })
                &&& match kept[i] {
                    Slot::Empty => r is None && final(self).count() == old(self).count() + 1,
                    Slot::Occupied { key, value: v } => r == Some((key, v)) && final(self).count()
                        == old(self).count(),
                }
            }),
    {
        let i = session.index();
        let ghost old_slots = self.slots@;
        if i < self.slots.len() {
            self.slots.truncate(i + 1);
            proof {
                lemma_count_take(old_slots, i + 1);
            }
        } else {
            self.slots.push(Slot::Empty);
            proof {
                lemma_count_push_empty(old_slots);
            }
        }
        let ghost kept = self.slots@;
        proof {
            lemma_count_update(kept, i as int, Slot::Occupied { key: session, value });
        }
        let mut prev = Slot::Occupied { key: session, value };
        std::mem::swap(&mut self.slots[i], &mut prev);
        match prev {
            Slot::Occupied { key, value } => {
                Some((key, value))
            },
            Slot::Empty => {
                self.len = self.len + 1;
                None
            },
        }
    }

    /// Remove the value of this session, returning it. Trailing empty slots are then popped.
    pub fn remove(&mut self, session: Session) -> (r: Option<V>)
        requires
            old(self).wf(),
        ensures
            final(self).wf(),
            r == lookup(old(self).slots(), session),
            r is None ==> final(self).slots() == old(self).slots() && final(self).count() == old(
                self,
            ).count(),
            r is Some ==> final(self).count() == old(self).count() - 1 && final(self).slots()
                == trim_empty(
                old(self).slots().update((session.0 & 0xFFF) as int, Slot::Empty),
            ),
            lookup(final(self).slots(), session) is None,
            forall|s2: Session|
                s2 != session ==> #[trigger] lookup(final(self).slots(), s2) == lookup(
                    old(self).slots(),
                    s2,
                ),
    {
        proof {
            if lookup(self.slots@, session) is Some {
                lemma_remove_lookup(self.slots@, session);
            }
        }
        let i = session.index();
        if i < self.slots.len() {
            let is_match = match &self.slots[i] {
                Slot::Occupied { key, .. } => *key == session,
                Slot::Empty => false,
            };
            if is_match {
                let ghost old_slots = self.slots@;
                proof {
                    lemma_count_update(old_slots, i as int, Slot::Empty);
                }
                let mut prev = Slot::Empty;
                std::mem::swap(&mut self.slots[i], &mut prev);
                match prev {
                    Slot::Occupied { value, .. } => {
                        self.len = self.len - 1;
                        self.pop_empty_slots();
                        return Some(value);
                    },
                    Slot::Empty => {
                        proof {
                            assert(false);
                        }
                        return None;
                    },
                }
            }
        }
        None
    }

    /// Pop the empty slots at the end.
    pub fn pop_empty_slots(&mut self)
        requires
            old(self).wf(),
        ensures
            final(self).wf(),
            final(self).slots() == trim_empty(old(self).slots()),
            final(self).count() == old(self).count(),
    {
        loop
            invariant
                self.wf(),
                self.len == old(self).len,
                trim_empty(self.slots@) == trim_empty(old(self).slots@),
            decreases self.slots@.len(),
        {
            let n = self.slots.len();
            if n == 0 {
                return ;
            }
            if !self.slots[n - 1].is_empty() {
                return ;
            }
            let ghost before = self.slots@;
            self.slots.pop();
            proof {
                assert(self.slots@ =~= before.drop_last());
            }
        }
    }
}

/// The slots with the empty slots at their end removed.
pub open spec fn trim_empty<V>(s: Seq<Slot<V>>) -> Seq<Slot<V>>
    decreases s.len(),
{
    if s.len() > 0 && s.last() is Empty {
        trim_empty(s.drop_last())
    } else {
        s
    }
}

/// Trimming keeps the slots below the new length and drops only empty slots.
proof fn lemma_trim_empty<V>(s: Seq<Slot<V>>)
    ensures
        trim_empty(s).len() <= s.len(),
        forall|j: int| 0 <= j < trim_empty(s).len() ==> #[trigger] trim_empty(s)[j] == s[j],
        forall|j: int| trim_empty(s).len() <= j < s.len() ==> #[trigger] s[j] is Empty,
    decreases s.len(),
{
    if s.len() > 0 && s.last() is Empty {
        let d = s.drop_last();
        lemma_trim_empty(d);
        assert forall|j: int| trim_empty(s).len() <= j < s.len() implies #[trigger] s[j] is Empty by {
            if j < d.len() {
                assert(d[j] == s[j]);
            }
        }
    }
}

/// Emptying the slot of a session that has a value, and trimming, leaves that session with
/// no value and every other session as it was.
pub proof fn lemma_remove_lookup<V>(slots: Seq<Slot<V>>, session: Session)
    requires
        lookup(slots, session) is Some,
    ensures
        ({
            let after = trim_empty(slots.update((session.0 & 0xFFF) as int, Slot::Empty));
            &&& lookup(after, session) is None
            &&& forall|s2: Session| s2 != session ==> #[trigger] lookup(after, s2) == lookup(slots, s2)
        }),
{
    let i = (session.0 & 0xFFF) as int;
    let upd = slots.update(i, Slot::Empty);
    lemma_trim_empty(upd);
    let after = trim_empty(upd);
    assert forall|s2: Session| s2 != session implies #[trigger] lookup(after, s2) == lookup(slots, s2) by {
        let j = (s2.0 & 0xFFF) as int;
        if j < upd.len() {
            assert(upd[j] == (if j == i { Slot::Empty } else { slots[j] }));
        }
    }
}

impl<V> Default for SessionMap<V> {
    fn default() -> (r: SessionMap<V>)
        ensures
            r.wf(),
            r.slots() == Seq::<Slot<V>>::empty(),
            r.count() == 0,
    {
        SessionMap::new()
    }
}

/// After a session's value is stored, the map gives that value back for the session.
pub proof fn lemma_get_after_insert<V>(slots: Seq<Slot<V>>, session: Session, value: V)
    requires
        (session.0 & 0xFFF) <= slots.len(),
    ensures
        ({
            let i = (session.0 & 0xFFF) as int;
            let kept = if i < slots.len() {
                slots.take(i + 1)
            } else {
                slots.push(Slot::Empty)
            };
            lookup(kept.update(i, Slot::Occupied { key: session, value }), session) == Some(value)
        }),
{
}

} // verus!
