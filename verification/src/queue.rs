use vstd::prelude::*;
use std::collections::VecDeque;
use priority_queue::PriorityQueue;

verus! {

/// A very simple push/pop queue.
pub struct LinearQueue<T> {
    buffer: VecDeque<T>,
}

impl<T> LinearQueue<T> {
    /// The items queued, front first.
    pub closed spec fn view(&self) -> Seq<T> {
        self.buffer@
    }

    /// An empty queue.
    pub fn new() -> (r: LinearQueue<T>)
        ensures
            r@ == Seq::<T>::empty(),
    {
        LinearQueue { buffer: VecDeque::new() }
    }

    /// Number of items queued.
    pub fn len(&self) -> (r: usize)
        ensures
            r == self@.len(),
    {
        self.buffer.len()
    }

    /// Push to the back of the queue.
    pub fn add(&mut self, item: T)
        ensures
            final(self)@ == old(self)@.push(item),
    {
        self.buffer.push_back(item);
    }

    /// Pop off the front of the queue.
    pub fn pop(&mut self) -> (r: Option<T>)
        ensures
            old(self)@.len() == 0 ==> r is None && final(self)@ == old(self)@,
            old(self)@.len() > 0 ==> r == Some(old(self)@[0]) && final(self)@ == old(self)@.drop_first(),
    {
        self.buffer.pop_front()
    }
}

impl<T> Default for LinearQueue<T> {
    fn default() -> (r: LinearQueue<T>)
        ensures
            r@ == Seq::<T>::empty(),
    {
        LinearQueue::new()
    }
}

#[verifier::external_type_specification]
#[verifier::external_body]
#[verifier::reject_recursive_types(I)]
#[verifier::reject_recursive_types(P)]
#[verifier::reject_recursive_types(H)]
pub struct ExPriorityQueue<I, P, H>(PriorityQueue<I, P, H>);

/// The items of a priority queue, each with its priority.
pub uninterp spec fn queue_entries(q: PriorityQueue<u64, u64>) -> Map<u64, u64>;

/// `PriorityQueue::default`: an empty queue.
#[verifier::external_body]
fn pq_new() -> (r: PriorityQueue<u64, u64>)
    ensures
        queue_entries(r) == no_entries(),
{
    PriorityQueue::default()
}

/// `PriorityQueue::len`: the number of items.
#[verifier::external_body]
fn pq_len(q: &PriorityQueue<u64, u64>) -> (r: usize)
    ensures
        r == queue_entries(*q).len(),
{
    q.len()
}

/// `PriorityQueue::push_increase`: an absent item is inserted with the priority and `None`
/// comes back; a present item with a lower priority takes the new one and its old priority
/// comes back; otherwise nothing changes and the given priority comes back.
#[verifier::external_body]
fn pq_push_increase(q: &mut PriorityQueue<u64, u64>, item: u64, priority: u64) -> (r: Option<u64>)
    ensures
        ({
            let m = queue_entries(*old(q));
            &&& !m.contains_key(item) ==> r is None && queue_entries(*final(q)) == m.insert(item, priority)
            &&& m.contains_key(item) && priority > m[item] ==> r == Some(m[item])
                && queue_entries(*final(q)) == m.insert(item, priority)
            &&& m.contains_key(item) && priority <= m[item] ==> r == Some(priority)
                && queue_entries(*final(q)) == m
        }),
{
    q.push_increase(item, priority)
}

/// `PriorityQueue::pop`: an item of the greatest priority leaves, with its priority; which one
/// of several with that priority is left open.
#[verifier::external_body]
fn pq_pop(q: &mut PriorityQueue<u64, u64>) -> (r: Option<(u64, u64)>)
    ensures
        popped(queue_entries(*old(q)), r, queue_entries(*final(q))),
{
    q.pop()
}

/// A queue with nothing in it.
pub open spec fn no_entries() -> Map<u64, u64> {
    Map::empty()
}

/// What popping the entries m gives: nothing, where m is empty; else an item of the greatest
/// priority, with its priority, and the entries without it.
pub open spec fn popped(m: Map<u64, u64>, r: Option<(u64, u64)>, after: Map<u64, u64>) -> bool {
    if m == Map::<u64, u64>::empty() {
        r is None && after == m
    } else {
        r matches Some((i, p)) && m.contains_key(i) && m[i] == p
            && (forall|k: u64| #[trigger] m.contains_key(k) ==> m[k] <= p) && after == m.remove(i)
    }
}

/// A queue where pushing an item that is already queued raises its priority to the pushed
/// one where that is higher, in place of adding it again.
pub struct RepetitionPriorityQueue {
    buffer: PriorityQueue<u64, u64>,
}

impl RepetitionPriorityQueue {
    /// The queued items, each with its priority.
    pub closed spec fn view(&self) -> Map<u64, u64> {
        queue_entries(self.buffer)
    }

    pub closed spec fn wf(&self) -> bool {
        self@.dom().finite()
    }

    /// An empty queue.
    pub fn new() -> (r: RepetitionPriorityQueue)
        ensures
            r.wf(),
            r@ == Map::<u64, u64>::empty(),
    {
        RepetitionPriorityQueue { buffer: pq_new() }
    }

    /// The number of items in the queue.
    pub fn len(&self) -> (r: usize)
        ensures
            r == self@.len(),
    {
        pq_len(&self.buffer)
    }

    /// Push an item with priority 1. Returns whether the item was already queued.
    pub fn push(&mut self, item: u64) -> (r: bool)
        requires
            old(self).wf(),
        ensures
            final(self).wf(),
            r == old(self)@.contains_key(item),
            final(self)@ == raised(old(self)@, item, 1),
    {
        self.push_with_priority(item, 1)
    }

    /// Push an item with a priority. Returns whether the item was already queued; its
    /// priority is then raised to the given one where that is higher.
    pub fn push_with_priority(&mut self, item: u64, prio: u64) -> (r: bool)
        requires
            old(self).wf(),
        ensures
            final(self).wf(),
            r == old(self)@.contains_key(item),
            final(self)@ == raised(old(self)@, item, prio),
    {
        pq_push_increase(&mut self.buffer, item, prio).is_some()
    }

    /// Pop an item of the highest priority off the queue.
    pub fn pop(&mut self) -> (r: Option<u64>)
        requires
            old(self).wf(),
        ensures
            final(self).wf(),
            old(self)@ == Map::<u64, u64>::empty() ==> r is None && final(self)@ == old(self)@,
            old(self)@ != Map::<u64, u64>::empty() ==> (r matches Some(i) && old(self)@.contains_key(i)
                && (forall|k: u64| #[trigger] old(self)@.contains_key(k) ==> old(self)@[k] <= old(self)@[i])
                && final(self)@ == old(self)@.remove(i)),
    {
        match pq_pop(&mut self.buffer) {
            Some((item, _)) => Some(item),
            None => None,
        }
    }

    /// Take out every item for which the predicate, given the item and its priority, returns
    /// true; the others stay with their priorities.
    pub fn extract_if<F: Fn(u64, u64) -> bool>(&mut self, predicate: F) -> (r: Vec<u64>)
        requires
            old(self).wf(),
            forall|i: u64, p: u64| #[trigger] predicate.requires((i, p)),
        ensures
            final(self).wf(),
            r@.no_duplicates(),
            forall|i: u64| #[trigger] r@.contains(i) ==> old(self)@.contains_key(i)
                && !final(self)@.contains_key(i) && predicate.ensures((i, old(self)@[i]), true),
            forall|i: u64| #[trigger] old(self)@.contains_key(i) && !r@.contains(i) ==> final(self)@.contains_key(i)
                && final(self)@[i] == old(self)@[i] && predicate.ensures((i, old(self)@[i]), false),
            forall|i: u64| #[trigger] final(self)@.contains_key(i) ==> old(self)@.contains_key(i),
    {
        let ghost m0 = self@;
        let mut out: Vec<u64> = Vec::new();
        let mut kept: Vec<(u64, u64)> = Vec::new();
        loop
            invariant
                self.wf(),
                forall|i: u64, p: u64| #[trigger] predicate.requires((i, p)),
                forall|i: u64| #[trigger] self@.contains_key(i) ==> m0.contains_key(i) && self@[i] == m0[i],
                forall|i: u64| #[trigger] m0.contains_key(i) ==> self@.contains_key(i) || out@.contains(i)
                    || kept_has(kept@, i),
                out@.no_duplicates(),
                forall|i: u64| #[trigger] out@.contains(i) ==> m0.contains_key(i) && !self@.contains_key(i)
                    && !kept_has(kept@, i) && predicate.ensures((i, m0[i]), true),
                forall|j: int| 0 <= j < kept@.len() ==> m0.contains_key(#[trigger] kept@[j].0)
                    && m0[kept@[j].0] == kept@[j].1 && !self@.contains_key(kept@[j].0)
                    && predicate.ensures((kept@[j].0, kept@[j].1), false),
                forall|a: int, b: int| 0 <= a < b < kept@.len() ==> #[trigger] kept@[a].0 != #[trigger] kept@[b].0,
            ensures
                self@ == Map::<u64, u64>::empty(),
                forall|i: u64| #[trigger] m0.contains_key(i) ==> out@.contains(i) || kept_has(kept@, i),
                out@.no_duplicates(),
                forall|i: u64| #[trigger] out@.contains(i) ==> m0.contains_key(i) && !kept_has(kept@, i)
                    && predicate.ensures((i, m0[i]), true),
                forall|j: int| 0 <= j < kept@.len() ==> m0.contains_key(#[trigger] kept@[j].0)
                    && m0[kept@[j].0] == kept@[j].1 && predicate.ensures((kept@[j].0, kept@[j].1), false),
                forall|a: int, b: int| 0 <= a < b < kept@.len() ==> #[trigger] kept@[a].0 != #[trigger] kept@[b].0,
            decreases self@.len(),
        {
            let ghost before = self@;
            match pq_pop(&mut self.buffer) {
                None => {
                    break;
                },
                Some((item, prio)) => {
                    proof {
                        assert(before.contains_key(item));
                        assert(self@.len() < before.len());
                    }
                    if predicate(item, prio) {
                        proof {
                            assert(!out@.contains(item));
                            assert(!kept_has(kept@, item)) by {
                                if kept_has(kept@, item) {
                                    let j = choose|j: int| 0 <= j < kept@.len() && #[trigger] kept@[j].0 == item;
                                    assert(m0.contains_key(kept@[j].0));
                                }
                            }
                        }
                        let ghost old_out = out@;
                        out.push(item);
                        proof {
                            assert forall|i: u64| #[trigger] out@.contains(i) implies m0.contains_key(i)
                                && !self@.contains_key(i) && !kept_has(kept@, i)
                                && predicate.ensures((i, m0[i]), true) by {
                                if i != item {
                                    let k = choose|k: int| 0 <= k < out@.len() && out@[k] == i;
                                    assert(old_out[k] == i);
                                    assert(old_out.contains(i));
                                } else {
                                    assert(before.contains_key(item));
                                    assert(!kept_has(kept@, item));
                                }
                            }
                            assert forall|i: u64| #[trigger] m0.contains_key(i) implies self@.contains_key(i)
                                || out@.contains(i) || kept_has(kept@, i) by {
                                if i == item {
                                    assert(out@[out@.len() - 1] == item);
                                } else if !self@.contains_key(i) && !kept_has(kept@, i) {
                                    assert(!before.contains_key(i));
                                    assert(old_out.contains(i));
                                    let k = choose|k: int| 0 <= k < old_out.len() && old_out[k] == i;
                                    assert(out@[k] == i);
                                }
                            }
                        }
                    } else {
                        let ghost old_kept = kept@;
                        kept.push((item, prio));
                        proof {
                            assert forall|i: u64| #[trigger] out@.contains(i) implies !kept_has(kept@, i) by {
                                if kept_has(kept@, i) {
                                    let j = choose|j: int| 0 <= j < kept@.len() && #[trigger] kept@[j].0 == i;
                                    if j < old_kept.len() {
                                        assert(old_kept[j].0 == i);
                                        assert(kept_has(old_kept, i));
                                    }
                                }
                            }
                            assert forall|a: int, b: int| 0 <= a < b < kept@.len() implies #[trigger] kept@[a].0
                                != #[trigger] kept@[b].0 by {
                                if b == kept@.len() - 1 {
                                    assert(!before.remove(item).contains_key(item));
                                    assert(m0.contains_key(old_kept[a].0));
                                }
                            }
                            assert forall|i: u64| #[trigger] m0.contains_key(i) implies self@.contains_key(i)
                                || out@.contains(i) || kept_has(kept@, i) by {
                                if i == item {
                                    assert(kept@[kept@.len() - 1].0 == item);
                                } else if kept_has(old_kept, i) {
                                    let j = choose|j: int| 0 <= j < old_kept.len() && #[trigger] old_kept[j].0 == i;
                                    assert(kept@[j].0 == i);
                                }
                            }
                        }
                    }
                },
            }
        }
        let n = kept.len();
        let mut j: usize = 0;
        while j < n
            invariant
                self.wf(),
                j <= n,
                n == kept@.len(),
                forall|a: int, b: int| 0 <= a < b < kept@.len() ==> #[trigger] kept@[a].0 != #[trigger] kept@[b].0,
                forall|i: u64| #[trigger] self@.contains_key(i) <==> kept_has(kept@.subrange(0, j as int), i),
                forall|a: int| 0 <= a < j ==> #[trigger] self@[kept@[a].0] == kept@[a].1,
            decreases n - j,
        {
            let (item, prio) = kept[j];
            proof {
                assert(!self@.contains_key(item)) by {
                    if kept_has(kept@.subrange(0, j as int), item) {
                        let a = choose|a: int| 0 <= a < j && #[trigger] kept@.subrange(0, j as int)[a].0 == item;
                        assert(kept@[a].0 == item);
                    }
                }
            }
            let ghost before = self@;
            pq_push_increase(&mut self.buffer, item, prio);
            proof {
                lemma_kept_step(kept@, j as int);
            }
            j = j + 1;
            proof {
                assert forall|a: int| 0 <= a < j implies #[trigger] self@[kept@[a].0] == kept@[a].1 by {
                    if a < j - 1 {
                        assert(kept@[a].0 != item);
                    }
                }
            }
        }
        proof {
            assert(kept@.subrange(0, n as int) =~= kept@);
            assert forall|i: u64| #[trigger] old(self)@.contains_key(i) && !out@.contains(i) implies self@.contains_key(i)
                && self@[i] == m0[i] by {
                let j = choose|j: int| 0 <= j < kept@.len() && #[trigger] kept@[j].0 == i;
                assert(kept@[j].0 == i);
            }
            assert forall|i: u64| #[trigger] out@.contains(i) implies !self@.contains_key(i) by {
                if self@.contains_key(i) {
                    assert(kept_has(kept@, i));
                }
            }
            assert forall|i: u64| #[trigger] self@.contains_key(i) implies m0.contains_key(i) by {
                let j = choose|j: int| 0 <= j < kept@.len() && #[trigger] kept@[j].0 == i;
                assert(kept@[j].0 == i);
            }
        }
        out
    }
}

impl Default for RepetitionPriorityQueue {
    fn default() -> (r: RepetitionPriorityQueue)
        ensures
            r.wf(),
            r@ == Map::<u64, u64>::empty(),
    {
        RepetitionPriorityQueue::new()
    }
}

/// The entries after pushing an item with a priority: an absent item is added with it, a
/// present one takes it where it is higher.
pub open spec fn raised(m: Map<u64, u64>, item: u64, prio: u64) -> Map<u64, u64> {
    if !m.contains_key(item) || prio > m[item] {
        m.insert(item, prio)
    } else {
        m
    }
}

/// Whether an item is among the first components.
spec fn kept_has(kept: Seq<(u64, u64)>, i: u64) -> bool {
    exists|j: int| 0 <= j < kept.len() && #[trigger] kept[j].0 == i
}

proof fn lemma_kept_step(kept: Seq<(u64, u64)>, j: int)
    requires
        0 <= j < kept.len(),
    ensures
        forall|i: u64| #[trigger] kept_has(kept.subrange(0, j + 1), i) <==> (kept_has(kept.subrange(0, j), i)
            || i == kept[j].0),
{
    assert forall|i: u64| #[trigger] kept_has(kept.subrange(0, j + 1), i) implies (kept_has(kept.subrange(0, j), i)
        || i == kept[j].0) by {
        let a = choose|a: int| 0 <= a < j + 1 && #[trigger] kept.subrange(0, j + 1)[a].0 == i;
        if a < j {
            assert(kept.subrange(0, j)[a].0 == i);
        }
    }
    assert forall|i: u64| (kept_has(kept.subrange(0, j), i) || i == kept[j].0) implies #[trigger] kept_has(
        kept.subrange(0, j + 1),
        i,
    ) by {
        if i == kept[j].0 {
            assert(kept.subrange(0, j + 1)[j].0 == i);
        } else {
            let a = choose|a: int| 0 <= a < j && #[trigger] kept.subrange(0, j)[a].0 == i;
            assert(kept.subrange(0, j + 1)[a].0 == i);
        }
    }
}

} // verus!
