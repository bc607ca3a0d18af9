use vstd::prelude::*;

verus! {

/// Whether a buffer is owned, or borrowed from a shared span or a shared uniform value.
#[derive(Copy, Clone, Eq, PartialEq, Debug, Structural)]
pub enum AllocationKind {
    /// The buffer is shared with a span of memory or a uniform value.
    Borrowed,
    /// The buffer is owned.
    Owned,
}

impl AllocationKind {
    pub fn is_borrowed(self) -> (r: bool)
        ensures
            r == (self == AllocationKind::Borrowed),
    {
        matches!(self, AllocationKind::Borrowed)
    }

    pub fn is_owned(self) -> (r: bool)
        ensures
            r == (self == AllocationKind::Owned),
    {
        matches!(self, AllocationKind::Owned)
    }
}

/// An array of N values that is either owned, or borrowed from a shared buffer: a span of memory,
/// or a buffer in which every element has the same value. A borrowed array is copied into an
/// owned one with `to_owned_ptr`.
pub struct MaybeOwnedArray<T: Copy, const N: usize> {
    ptr_kind: AllocationKind,
    /// The value of every element while `data` is empty: a shared uniform buffer.
    fill: T,
    data: Vec<T>,
}

impl<T: Copy, const N: usize> MaybeOwnedArray<T, N> {
    /// The elements, by index.
    pub closed spec fn view(&self) -> Seq<T> {
        if self.data@.len() == 0 {
            Seq::new(N as nat, |i: int| self.fill)
        } else {
            self.data@
        }
    }

    /// Whether the array is owned.
    pub closed spec fn owned_spec(&self) -> bool {
        self.ptr_kind == AllocationKind::Owned
    }

    pub closed spec fn wf(&self) -> bool {
        self.data@.len() == 0 || self.data@.len() == N
    }

    /// There are N elements.
    pub proof fn lemma_len(&self)
        requires
            self.wf(),
        ensures
            self@.len() == N,
    {
    }

    fn filled_vec(value: T) -> (r: Vec<T>)
        ensures
            r@ == Seq::new(N as nat, |i: int| value),
    {
        let mut v: Vec<T> = Vec::new();
        let mut k: usize = 0;
        while k < N
            invariant
                k <= N,
                v@ == Seq::new(k as nat, |i: int| value),
            decreases N - k,
        {
            v.push(value);
            k = k + 1;
            assert(v@ =~= Seq::new(k as nat, |i: int| value));
        }
        v
    }

    /// Give the array its own buffer of its values, if it has none.
    fn materialize(&mut self)
        requires
            old(self).wf(),
        ensures
            final(self).wf(),
            final(self)@ == old(self)@,
            final(self).ptr_kind == old(self).ptr_kind,
            final(self).data@.len() == N,
    {
        if self.data.len() == 0 {
            self.data = Self::filled_vec(self.fill);
        }
    }

    /// An owned array with every element equal to fill.
    pub fn new(fill: T) -> (r: Self)
        ensures
            r.wf(),
            r.owned_spec(),
            r@ == Seq::new(N as nat, |i: int| fill),
    {
        MaybeOwnedArray { ptr_kind: AllocationKind::Owned, fill, data: Self::filled_vec(fill) }
    }

    /// An array borrowed from a shared buffer in which every element is fill.
    pub fn borrowed_uniform(fill: T) -> (r: Self)
        ensures
            r.wf(),
            !r.owned_spec(),
            r@ == Seq::new(N as nat, |i: int| fill),
    {
        MaybeOwnedArray { ptr_kind: AllocationKind::Borrowed, fill, data: Vec::new() }
    }

    /// An array borrowed from a span of N values.
    pub fn borrowed(values: Vec<T>) -> (r: Self)
        requires
            values@.len() == N,
            N > 0,
        ensures
            r.wf(),
            !r.owned_spec(),
            r@ == values@,
    {
        let fill = values[0];
        MaybeOwnedArray { ptr_kind: AllocationKind::Borrowed, fill, data: values }
    }

    /// An array that owns a buffer of N values.
    pub fn owned(values: Vec<T>) -> (r: Self)
        requires
            values@.len() == N,
            N > 0,
        ensures
            r.wf(),
            r.owned_spec(),
            r@ == values@,
    {
        let fill = values[0];
        MaybeOwnedArray { ptr_kind: AllocationKind::Owned, fill, data: values }
    }

    /// The element at index i.
    pub fn get_unchecked(&self, i: usize) -> (r: T)
        requires
            self.wf(),
            i < N,
        ensures
            r == self@[i as int],
    {
        if self.data.len() == 0 {
            self.fill
        } else {
            self.data[i]
        }
    }

    /// A mutable reference to the element at index i.
    pub fn get_unchecked_mut(&mut self, i: usize) -> (r: &mut T)
        requires
            old(self).wf(),
            i < N,
        ensures
            *r == old(self)@[i as int],
            final(self).wf(),
            final(self)@ == old(self)@.update(i as int, *final(r)),
            final(self).owned_spec() == old(self).owned_spec(),
    {
        self.materialize();
        &mut self.data[i]
    }

    /// Assign the element at index i.
    pub fn set_unchecked(&mut self, i: usize, val: T)
        requires
            old(self).wf(),
            i < N,
        ensures
            final(self).wf(),
            final(self)@ == old(self)@.update(i as int, val),
            final(self).owned_spec() == old(self).owned_spec(),
    {
        self.materialize();
        self.data.set(i, val);
    }

    /// Assign the element at index i, returning the previous one.
    pub fn replace_unchecked(&mut self, i: usize, val: T) -> (r: T)
        requires
            old(self).wf(),
            i < N,
        ensures
            r == old(self)@[i as int],
            final(self).wf(),
            final(self)@ == old(self)@.update(i as int, val),
            final(self).owned_spec() == old(self).owned_spec(),
    {
        self.materialize();
        let r = self.data[i];
        self.data.set(i, val);
        r
    }

    pub fn is_owned(&self) -> (r: bool)
        ensures
            r == self.owned_spec(),
    {
        self.ptr_kind.is_owned()
    }

    pub fn is_borrowed(&self) -> (r: bool)
        ensures
            r == !self.owned_spec(),
    {
        self.ptr_kind.is_borrowed()
    }

    /// Copy a borrowed array into an owned buffer.
    /// Returns "false" if the array is already owned.
    pub fn to_owned_ptr(&mut self) -> (r: bool)
        requires
            old(self).wf(),
        ensures
            final(self).wf(),
            final(self)@ == old(self)@,
            final(self).owned_spec(),
            r == !old(self).owned_spec(),
    {
        if self.is_borrowed() {
            self.materialize();
            self.ptr_kind = AllocationKind::Owned;
            true
        } else {
            false
        }
    }

    /// Assign value to every element.
    pub fn fill(&mut self, value: T)
        requires
            old(self).wf(),
        ensures
            final(self).wf(),
            final(self)@ == Seq::new(N as nat, |i: int| value),
            final(self).owned_spec() == old(self).owned_spec(),
    {
        self.materialize();
        let mut k: usize = 0;
        while k < N
            invariant
                self.wf(),
                self.data@.len() == N,
                k <= N,
                forall|j: int| 0 <= j < k ==> self.data@[j] == value,
                self.ptr_kind == old(self).ptr_kind,
            decreases N - k,
        {
            self.data.set(k, value);
            k = k + 1;
        }
        assert(self@ =~= Seq::new(N as nat, |i: int| value));
    }
}

} // verus!
