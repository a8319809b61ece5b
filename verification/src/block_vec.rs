//! A single growable buffer that doubles in place as soon as a push fills
//! it: the baseline that the pipelined containers are measured against.

use vstd::prelude::*;

verus! {

/// A buffer of cells with an append cursor, extended in place by the push
/// that fills it.
///
/// The view is the row of cells below the cursor: `Some(v)` for a populated
/// cell, `None` for a vacant one. Only [`BVec::alloc_from_last`] makes vacant
/// cells.
pub struct BVec<T> {
    /// Values of the populated cells `base .. len`.
    data: Vec<T>,
    /// First cell that appending has written or will write.
    base: usize,
    /// The cursor.
    len: usize,
    capacity: usize,
    free: bool,
}

impl<T> View for BVec<T> {
    type V = Seq<Option<T>>;

    closed spec fn view(&self) -> Seq<Option<T>> {
        Seq::new(
            self.len as nat,
            |i: int|
                if i < self.base {
                    None
                } else {
                    Some(self.data@[i - self.base])
                },
        )
    }
}

impl<T> BVec<T> {
    /// The representation is consistent: the populated cells end at the
    /// cursor, and a released buffer holds no value.
    pub closed spec fn wf(&self) -> bool {
        &&& self.base + self.data@.len() == self.len
        &&& self.len <= self.capacity
        &&& self.free ==> self.data@.len() == 0
    }

    /// The cursor: the number of cells that count as written.
    pub closed spec fn spec_len(&self) -> usize {
        self.len
    }

    /// The number of cells of the buffer.
    pub closed spec fn spec_capacity(&self) -> usize {
        self.capacity
    }

    /// Whether the buffer has been released.
    pub closed spec fn spec_is_free(&self) -> bool {
        self.free
    }

    /// The view has one entry for each cell below the cursor, and the cursor
    /// never passes the capacity.
    pub proof fn lemma_view_len(&self)
        ensures
            self@.len() == self.spec_len(),
            self.wf() ==> self.spec_len() <= self.spec_capacity(),
    {
    }

    /// Allocates a buffer of `size` cells with the cursor at 0.
    pub fn new(size: usize) -> (s: BVec<T>)
        ensures
            s.wf(),
            !s.is_free(),
            s.spec_capacity() == size,
            s.spec_len() == 0,
            s@ == Seq::<Option<T>>::empty(),
    {
        BVec { data: Vec::with_capacity(size), base: 0, len: 0, capacity: size, free: false }
    }

    #[verifier::when_used_as_spec(spec_len)]
    pub fn len(&self) -> (n: usize)
        ensures
            n == self.spec_len(),
            n == self@.len(),
    {
        self.len
    }

    #[verifier::when_used_as_spec(spec_capacity)]
    pub fn capacity(&self) -> (n: usize)
        ensures
            n == self.spec_capacity(),
    {
        self.capacity
    }

    #[verifier::when_used_as_spec(spec_is_free)]
    pub fn is_free(&self) -> (b: bool)
        ensures
            b == self.spec_is_free(),
    {
        self.free
    }

    /// Extends the block to `new_size` cells where it stands. Cells and cursor
    /// stay as they are.
    fn realloc(&mut self, new_size: usize)
        requires
            old(self).wf(),
            !old(self).is_free(),
            old(self).spec_len() <= new_size,
        ensures
            final(self).wf(),
            !final(self).is_free(),
            final(self)@ == old(self)@,
            final(self).spec_len() == old(self).spec_len(),
            final(self).spec_capacity() == new_size,
    {
        self.data.reserve(new_size - self.len);
        self.capacity = new_size;
        assert(self@ =~= old(self)@);
    }

    /// Allocates the successor of this buffer: twice the capacity, with the
    /// cursor already at this buffer's capacity. No value is copied: the
    /// cells below the cursor are vacant.
    pub fn alloc_from_last(&self) -> (s: BVec<T>)
        requires
            2 * self.spec_capacity() <= usize::MAX,
        ensures
            s.wf(),
            !s.is_free(),
            s.spec_capacity() == 2 * self.spec_capacity(),
            s.spec_len() == self.spec_capacity(),
            s@ == Seq::new(self.spec_capacity() as nat, |i: int| None::<T>),
    {
        let new_size = self.capacity * 2;
        let s = BVec {
            data: Vec::with_capacity(self.capacity),
            base: self.capacity,
            len: self.capacity,
            capacity: new_size,
            free: false,
        };
        assert(s@ =~= Seq::new(self.spec_capacity() as nat, |i: int| None::<T>));
        s
    }

    /// Appends `val` under the cursor. When that fills the buffer, the block
    /// is extended to twice the capacity at once, so that the buffer has
    /// room again when the call returns.
    pub fn push(&mut self, val: T)
        requires
            old(self).wf(),
            !old(self).is_free(),
            old(self).spec_len() < old(self).spec_capacity(),
            old(self).spec_len() + 1 == old(self).spec_capacity() ==> 2 * old(
                self,
            ).spec_capacity() <= usize::MAX,
        ensures
            final(self).wf(),
            !final(self).is_free(),
            final(self)@ == old(self)@.push(Some(val)),
            final(self).spec_len() == old(self).spec_len() + 1,
            final(self).spec_capacity() == if old(self).spec_len() + 1 == old(
                self,
            ).spec_capacity() {
                2 * old(self).spec_capacity()
            } else {
                old(self).spec_capacity() as int
            },
            final(self).spec_len() < final(self).spec_capacity(),
            final(self).spec_capacity() >= old(self).spec_capacity(),
    {
        self.data.push(val);
        self.len = self.len + 1;
        assert(self@ =~= old(self)@.push(Some(val)));
        if self.len == self.capacity {
            self.realloc(self.capacity * 2);
        }
    }

    /// Releases the buffer. Cursor and capacity keep their values; every cell
    /// is vacant afterwards.
    pub fn free(&mut self)
        requires
            old(self).wf(),
            !old(self).is_free(),
        ensures
            final(self).wf(),
            final(self).is_free(),
            final(self).spec_len() == old(self).spec_len(),
            final(self).spec_capacity() == old(self).spec_capacity(),
            final(self)@ == Seq::new(old(self).spec_len() as nat, |i: int| None::<T>),
    {
        self.data = Vec::new();
        self.base = self.len;
        self.free = true;
        assert(self@ =~= Seq::new(old(self).spec_len() as nat, |i: int| None::<T>));
    }

    /// The value of the populated cell `index`.
    pub fn get(&self, index: usize) -> (r: &T)
        requires
            self.wf(),
            index < self.spec_len(),
            self@[index as int] is Some,
        ensures
            Some(*r) == self@[index as int],
    {
        &self.data[index - self.base]
    }

    /// Exclusive access to the value of the populated cell `index`.
    pub fn get_mut(&mut self, index: usize) -> (r: &mut T)
        requires
            old(self).wf(),
            index < old(self).spec_len(),
            old(self)@[index as int] is Some,
        ensures
            Some(*r) == old(self)@[index as int],
            final(self).wf(),
            final(self).is_free() == old(self).is_free(),
            final(self).spec_len() == old(self).spec_len(),
            final(self).spec_capacity() == old(self).spec_capacity(),
            final(self)@ == old(self)@.update(index as int, Some(*final(r))),
    {
        &mut self.data[index - self.base]
    }
}

impl<T> vstd::std_specs::core::IndexSpecImpl<usize> for BVec<T> {
    open spec fn index_req(&self, index: &usize) -> bool {
        &&& self.wf()
        &&& *index < self.spec_len()
        &&& self@[*index as int] is Some
    }
}

impl<T> std::ops::Index<usize> for BVec<T> {
    type Output = T;

    /// The value of the populated cell `index`.
    fn index(&self, index: usize) -> (r: &T)
        ensures
            Some(*r) == self@[index as int],
    {
        self.get(index)
    }
}

} // verus!
