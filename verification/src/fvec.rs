//! A segment: one buffer with an append cursor.
//!
//! The buffer is a row of `capacity` cells. A cell is either populated (it
//! holds a value) or vacant. The cursor is the number of cells that count as
//! written; appending populates the cell under the cursor and moves it on.
//! Appending to a segment with room allocates nothing and leaves the
//! capacity as it is. Only [`FVec::push`] onto a full segment replaces the
//! buffer, by one of twice the capacity.
//! A segment made by [`FVec::alloc_from_last`] starts with its cursor in the
//! middle: the cells below it are vacant until [`FVec::fill_from`] moves the
//! values of an older segment into them.

use vstd::prelude::*;

verus! {

/// A buffer of cells with an append cursor.
///
/// The view is the row of cells below the cursor: `Some(v)` for a populated
/// cell, `None` for a vacant one.
pub struct FVec<T> {
    /// Values of the populated cells `0 .. front.len()`.
    front: Vec<T>,
    /// Values of the populated cells `base .. len`.
    back: Vec<T>,
    /// First cell that appending has written or will write.
    base: usize,
    /// The cursor.
    len: usize,
    capacity: usize,
    free: bool,
}

impl<T> View for FVec<T> {
    type V = Seq<Option<T>>;

    closed spec fn view(&self) -> Seq<Option<T>> {
        Seq::new(
            self.len as nat,
            |i: int|
                if i < self.front@.len() {
                    Some(self.front@[i])
                } else if i < self.base {
                    None
                } else {
                    Some(self.back@[i - self.base])
                },
        )
    }
}

impl<T> FVec<T> {
    /// The representation is consistent: the two runs of populated cells lie
    /// below the cursor, and a released segment holds no value.
    pub closed spec fn wf(&self) -> bool {
        &&& self.front@.len() <= self.base
        &&& self.base + self.back@.len() == self.len
        &&& self.len <= self.capacity
        &&& self.free ==> self.front@.len() == 0 && self.back@.len() == 0
    }

    /// The cursor: the number of cells that count as written.
    pub closed spec fn spec_len(&self) -> usize {
        self.len
    }

    /// The number of cells of the buffer.
    pub closed spec fn spec_capacity(&self) -> usize {
        self.capacity
    }

    /// Whether the buffer has been released.
    pub closed spec fn spec_is_free(&self) -> bool {
        self.free
    }

    /// The view has one entry for each cell below the cursor, and the cursor
    /// never passes the capacity.
    pub proof fn lemma_view_len(&self)
        ensures
            self@.len() == self.spec_len(),
            self.wf() ==> self.spec_len() <= self.spec_capacity(),
    {
    }

    /// A released segment holds no value: all its cells are vacant.
    pub proof fn lemma_free_is_vacant(&self)
        requires
            self.wf(),
            self.is_free(),
        ensures
            forall|i: int| 0 <= i < self@.len() ==> self@[i] is None,
    {
    }

    /// Allocates a segment of `size` cells with the cursor at 0.
    pub fn new(size: usize) -> (s: FVec<T>)
        ensures
            s.wf(),
            !s.is_free(),
            s.spec_capacity() == size,
            s.spec_len() == 0,
            s@ == Seq::<Option<T>>::empty(),
    {
        FVec {
            front: Vec::new(),
            back: Vec::with_capacity(size),
            base: 0,
            len: 0,
            capacity: size,
            free: false,
        }
    }

    #[verifier::when_used_as_spec(spec_len)]
    pub fn len(&self) -> (n: usize)
        ensures
            n == self.spec_len(),
            n == self@.len(),
    {
        self.len
    }

    #[verifier::when_used_as_spec(spec_capacity)]
    pub fn capacity(&self) -> (n: usize)
        ensures
            n == self.spec_capacity(),
    {
        self.capacity
    }

    #[verifier::when_used_as_spec(spec_is_free)]
    pub fn is_free(&self) -> (b: bool)
        ensures
            b == self.spec_is_free(),
    {
        self.free
    }

    /// Moves the buffer to a fresh block of `new_size` cells and releases the
    /// old block. Cells and cursor stay as they are.
    fn realloc(&mut self, new_size: usize)
        requires
            old(self).wf(),
            !old(self).is_free(),
            old(self).spec_len() <= new_size,
        ensures
            final(self).wf(),
            !final(self).is_free(),
            final(self)@ == old(self)@,
            final(self).spec_len() == old(self).spec_len(),
            final(self).spec_capacity() == new_size,
    {
        let mut front: Vec<T> = Vec::with_capacity(self.base);
        let mut back: Vec<T> = Vec::with_capacity(new_size - self.base);
        front.append(&mut self.front);
        back.append(&mut self.back);
        self.front = front;
        self.back = back;
        self.capacity = new_size;
        assert(self@ =~= old(self)@);
    }

    /// Allocates the successor of this segment: twice the capacity, with the
    /// cursor already at this segment's capacity. No value is copied: the
    /// cells below the cursor are vacant.
    pub fn alloc_from_last(&self) -> (s: FVec<T>)
        requires
            2 * self.spec_capacity() <= usize::MAX,
        ensures
            s.wf(),
            !s.is_free(),
            s.spec_capacity() == 2 * self.spec_capacity(),
            s.spec_len() == self.spec_capacity(),
            s@ == Seq::new(self.spec_capacity() as nat, |i: int| None::<T>),
    {
        let new_size = self.capacity * 2;
        let s = FVec {
            front: Vec::with_capacity(self.capacity),
            back: Vec::with_capacity(self.capacity),
            base: self.capacity,
            len: self.capacity,
            capacity: new_size,
            free: false,
        };
        assert(s@ =~= Seq::new(self.spec_capacity() as nat, |i: int| None::<T>));
        s
    }

    /// Appends `val` under the cursor of a segment with room. Nothing is
    /// allocated and the capacity stays as it is.
    pub fn push_raw(&mut self, val: T)
        requires
            old(self).wf(),
            !old(self).is_free(),
            old(self).spec_len() < old(self).spec_capacity(),
        ensures
            final(self).wf(),
            !final(self).is_free(),
            final(self)@ == old(self)@.push(Some(val)),
            final(self).spec_len() == old(self).spec_len() + 1,
            final(self).spec_capacity() == old(self).spec_capacity(),
    {
        self.back.push(val);
        self.len = self.len + 1;
        assert(self@ =~= old(self)@.push(Some(val)));
    }

    /// Appends `val` under the cursor. A segment with room keeps its buffer
    /// and its capacity. A push that finds the segment full first moves the
    /// buffer to a block of twice the capacity.
    pub fn push(&mut self, val: T)
        requires
            old(self).wf(),
            !old(self).is_free(),
            old(self).spec_len() == old(self).spec_capacity() ==> 0 < 2 * old(
                self,
            ).spec_capacity() <= usize::MAX,
        ensures
            final(self).wf(),
            !final(self).is_free(),
            final(self)@ == old(self)@.push(Some(val)),
            final(self).spec_len() == old(self).spec_len() + 1,
            old(self).spec_len() < old(self).spec_capacity() ==> final(self).spec_capacity()
                == old(self).spec_capacity(),
            old(self).spec_len() == old(self).spec_capacity() ==> final(self).spec_capacity() == 2
                * old(self).spec_capacity(),
            final(self).spec_capacity() >= old(self).spec_capacity(),
            final(self).spec_capacity() >= final(self).spec_len(),
    {
        if self.len == self.capacity {
            self.realloc(self.capacity * 2);
        }
        self.push_raw(val);
    }

    /// Releases the buffer. Cursor and capacity keep their values; every cell
    /// is vacant afterwards.
    pub fn free(&mut self)
        requires
            old(self).wf(),
            !old(self).is_free(),
        ensures
            final(self).wf(),
            final(self).is_free(),
            final(self).spec_len() == old(self).spec_len(),
            final(self).spec_capacity() == old(self).spec_capacity(),
            final(self)@ == Seq::new(old(self).spec_len() as nat, |i: int| None::<T>),
    {
        self.front = Vec::new();
        self.back = Vec::new();
        self.base = self.len;
        self.free = true;
        assert(self@ =~= Seq::new(old(self).spec_len() as nat, |i: int| None::<T>));
    }

    /// The value of the populated cell `index`.
    pub fn get(&self, index: usize) -> (r: &T)
        requires
            self.wf(),
            index < self.spec_len(),
            self@[index as int] is Some,
        ensures
            Some(*r) == self@[index as int],
    {
        if index < self.base {
            &self.front[index]
        } else {
            &self.back[index - self.base]
        }
    }

    /// Exclusive access to the value of the populated cell `index`.
    pub fn get_mut(&mut self, index: usize) -> (r: &mut T)
        requires
            old(self).wf(),
            index < old(self).spec_len(),
            old(self)@[index as int] is Some,
        ensures
            Some(*r) == old(self)@[index as int],
            final(self).wf(),
            final(self).is_free() == old(self).is_free(),
            final(self).spec_len() == old(self).spec_len(),
            final(self).spec_capacity() == old(self).spec_capacity(),
            final(self)@ == old(self)@.update(index as int, Some(*final(r))),
    {
        if index < self.base {
            &mut self.front[index]
        } else {
            &mut self.back[index - self.base]
        }
    }

    /// Moves every value of `src` into the cell of the same index of `self`.
    /// Both segments must be live, `src` must be populated throughout, and
    /// the cells of `self` that receive a value must be vacant. `src` keeps
    /// its cursor; all its cells are vacant afterwards.
    pub fn fill_from(&mut self, src: &mut FVec<T>)
        requires
            old(self).wf(),
            old(src).wf(),
            !old(self).is_free(),
            !old(src).is_free(),
            old(src).spec_len() <= old(self).spec_len(),
            forall|i: int| 0 <= i < old(src).spec_len() ==> old(src)@[i] is Some,
            forall|i: int| 0 <= i < old(src).spec_len() ==> old(self)@[i] is None,
        ensures
            final(self).wf(),
            !final(self).is_free(),
            final(self).spec_len() == old(self).spec_len(),
            final(self).spec_capacity() == old(self).spec_capacity(),
            final(self)@ == old(src)@ + old(self)@.skip(old(src).spec_len() as int),
            final(src).wf(),
            final(src).is_free() == old(src).is_free(),
            final(src).spec_len() == old(src).spec_len(),
            final(src).spec_capacity() == old(src).spec_capacity(),
            final(src)@ == Seq::new(old(src).spec_len() as nat, |i: int| None::<T>),
    {
        proof {
            if src.len > 0 {
                assert(old(self)@[0] is None);
                assert(old(self)@[src.len - 1] is None);
                assert(old(src)@[0] is Some);
                if src.front@.len() < src.base {
                    assert(old(src)@[src.front@.len() as int] is Some);
                }
            }
        }
        if src.len > 0 {
            self.front.append(&mut src.front);
            self.front.append(&mut src.back);
            src.base = src.len;
        }
        assert(self@ =~= old(src)@ + old(self)@.skip(old(src).spec_len() as int));
        assert(src@ =~= Seq::new(old(src).spec_len() as nat, |i: int| None::<T>));
    }
}

impl<T> vstd::std_specs::core::IndexSpecImpl<usize> for FVec<T> {
    open spec fn index_req(&self, index: &usize) -> bool {
        &&& self.wf()
        &&& *index < self.spec_len()
        &&& self@[*index as int] is Some
    }
}

impl<T> std::ops::Index<usize> for FVec<T> {
    type Output = T;

    /// The value of the populated cell `index`.
    fn index(&self, index: usize) -> (r: &T)
        ensures
            Some(*r) == self@[index as int],
    {
        self.get(index)
    }
}

} // verus!
