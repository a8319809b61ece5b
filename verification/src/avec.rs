//! The pipelined ring: a growable array that keeps a ring of segments of
//! doubling capacity, so that growing never copies more than one older,
//! smaller segment at a time.
//!
//! At any moment the ring holds a *chain* of segments, oldest first. The last
//! segment of the chain is the active one: it receives the pushes. The
//! segments before it are stale: each is full and waits for its values to be
//! moved into its successor. The number of stale segments is the copy debt.
//! The remaining segments of the ring are prepared ahead and hold no value
//! yet. The values pushed so far are those of the oldest chain segment
//! followed by what was appended to each later chain segment.

use vstd::prelude::*;
use vstd::arithmetic::div_mod::{lemma_fundamental_div_mod, lemma_mod_multiples_vanish};
use vstd::arithmetic::power2::{
    lemma_pow2_pos, lemma_pow2_strictly_increases, lemma_pow2_unfold, pow2,
};
use crate::chain::{
    at, chain_values, home, lemma_append_slot, lemma_append_values, lemma_capacity_ratio,
    lemma_chain_len, lemma_home, lemma_overwrite_slot, lemma_overwrite_values,
    lemma_refresh_slot, lemma_refresh_values, refreshed, slot_ok, vacant_below,
};
use crate::fvec::FVec;
use crate::model::RingState;
use crate::ring::{
    is_power_of_two, lemma_mask_mod, lemma_pow2_exceeds, lemma_ring_mod, lemma_word_is_multiple,
    ring_add, ring_sub,
};
use crate::scheduler::{GrowMessage, GrowOp, Handled, Pushed};

verus! {

/// A growable array over a ring of `CHUNK_COUNT` segments.
///
/// The view is the sequence of the values pushed so far, in push order.
pub struct AVec<T, const CHUNK_COUNT: usize> {
    chunks: Vec<FVec<T>>,
    /// The active segment.
    current_chunk: usize,
    /// The frontier: the segment of the largest capacity.
    largest_chunk: usize,
    /// The number of stale segments.
    copy_debt: usize,
    /// The number of segments allocated so far.
    allocated: usize,
    /// The number of segments released so far.
    released: usize,
}

impl<T, const CHUNK_COUNT: usize> View for AVec<T, CHUNK_COUNT> {
    type V = Seq<T>;

    closed spec fn view(&self) -> Seq<T> {
        chain_values(self.chunks@, self.spec_oldest(), self.copy_debt as int)
    }
}

impl<T, const CHUNK_COUNT: usize> AVec<T, CHUNK_COUNT> {
    /// The position of the active segment, the one that receives the pushes.
    pub closed spec fn spec_active(&self) -> usize {
        self.current_chunk
    }

    /// The position of the frontier, the segment of the largest capacity.
    pub closed spec fn spec_frontier(&self) -> usize {
        self.largest_chunk
    }

    /// The position of the oldest chain segment: the oldest stale segment
    /// if there is one, the active segment if not. It lies as many steps
    /// before the active segment as there is copy debt.
    pub open spec fn spec_oldest(&self) -> int {
        ring_sub(self.spec_active() as int, self.spec_copy_debt() as int, CHUNK_COUNT as int)
    }

    /// The ring invariant.
    pub closed spec fn wf(&self) -> bool {
        &&& CHUNK_COUNT >= 2
        &&& is_power_of_two(CHUNK_COUNT)
        &&& self.chunks@.len() == CHUNK_COUNT
        &&& self.current_chunk < CHUNK_COUNT
        &&& self.largest_chunk < CHUNK_COUNT
        &&& self.copy_debt < CHUNK_COUNT
        &&& self.largest_chunk == ring_sub(self.spec_oldest(), 1, CHUNK_COUNT as int)
        &&& self.allocated == CHUNK_COUNT + self.released
        &&& pow2((self.allocated - 1) as nat)
            <= self.chunks@[self.largest_chunk as int].spec_capacity()
        &&& forall|j: int|
            0 <= j < CHUNK_COUNT ==> #[trigger] slot_ok(
                self.chunks@,
                self.spec_oldest(),
                self.copy_debt as int,
                j,
            )
    }

    /// The number of stale segments: full segments whose values still wait
    /// to be moved into their successor.
    pub closed spec fn spec_copy_debt(&self) -> usize {
        self.copy_debt
    }

    /// The number of segments allocated so far, those of the new ring
    /// included.
    pub closed spec fn spec_allocated(&self) -> usize {
        self.allocated
    }

    /// The number of segments released so far.
    pub closed spec fn spec_released(&self) -> usize {
        self.released
    }

    /// The state of the ring, as the model has it.
    pub open spec fn spec_state(&self) -> RingState<T> {
        RingState {
            values: self@,
            size: CHUNK_COUNT as int,
            active: self.spec_active() as int,
            frontier: self.spec_frontier() as int,
            debt: self.spec_copy_debt() as int,
            active_capacity: self.spec_active_capacity() as int,
            capacity: self.spec_capacity() as int,
            allocated: self.spec_allocated() as int,
            released: self.spec_released() as int,
        }
    }

    /// The capacity of the frontier, the largest prepared segment.
    pub closed spec fn spec_capacity(&self) -> usize {
        self.chunks@[self.largest_chunk as int].spec_capacity()
    }

    /// The capacity of the active segment.
    pub closed spec fn spec_active_capacity(&self) -> usize {
        self.chunks@[self.current_chunk as int].spec_capacity()
    }

    /// The number of values pushed so far.
    pub closed spec fn spec_len(&self) -> usize {
        self.chunks@[self.current_chunk as int].spec_len()
    }

    /// Whether the segment at position `slot` of the ring has been released.
    pub closed spec fn spec_segment_is_free(&self, slot: int) -> bool {
        self.chunks@[slot].is_free()
    }

    /// The capacity of the segment at position `slot` of the ring.
    pub closed spec fn spec_segment_capacity(&self, slot: int) -> usize {
        self.chunks@[slot].spec_capacity()
    }

    /// The cursor of the segment at position `slot` of the ring.
    pub closed spec fn spec_segment_len(&self, slot: int) -> usize {
        self.chunks@[slot].spec_len()
    }

    /// The cells of the segment at position `slot` of the ring, up to its
    /// cursor: `Some(v)` for a populated cell, `None` for a vacant one.
    pub closed spec fn spec_segment_cells(&self, slot: int) -> Seq<Option<T>> {
        self.chunks@[slot]@
    }

    /// Which chain segment holds the value pushed as number `index`, as a
    /// count of steps after the oldest chain segment.
    pub closed spec fn spec_home(&self, index: int) -> int {
        home(self.chunks@, self.spec_oldest(), self.copy_debt as int, index)
    }

    /// The position that the next `Grow` message has to name: that of the
    /// segment after the oldest stale one, which receives its values.
    pub open spec fn spec_refresh_slot(&self) -> int {
        ring_add(self.spec_oldest(), 1, CHUNK_COUNT as int)
    }

    /// The number of leading cells of the active segment that still wait for
    /// the values of a stale segment: none without copy debt, the lower half
    /// of the segment with it.
    pub open spec fn spec_vacant(&self) -> int {
        if self.spec_copy_debt() == 0 {
            0
        } else {
            self.spec_active_capacity() as int / 2
        }
    }

    /// The cell `index` of the active segment holds the value pushed as
    /// number `index`, unless it is among the cells that still wait.
    proof fn lemma_resident(&self, index: int)
        requires
            self.wf(),
            self.spec_vacant() <= index < self.spec_len(),
        ensures
            self.chunks@[self.current_chunk as int].wf(),
            self.chunks@[self.current_chunk as int]@[index] == Some(self@[index]),
    {
        let c = self.chunks@;
        let start = self.spec_oldest();
        let debt = self.copy_debt as int;
        assert(slot_ok(c, start, debt, debt));
        assert(at(c, start, debt) == c[self.current_chunk as int]);
        if debt > 0 {
            assert(slot_ok(c, start, debt, debt - 1));
            lemma_chain_len(c, start, debt, debt - 1);
            assert(c[self.current_chunk as int]@[index] is Some);
        } else {
            assert(c[self.current_chunk as int]@[index] is Some);
        }
    }

    /// The position `rotations` steps after `index`: the remainder of their
    /// sum by the size of the ring, taken by masking.
    fn rotate_right(index: usize, rotations: usize) -> (r: usize)
        requires
            is_power_of_two(CHUNK_COUNT),
            index + rotations <= usize::MAX,
        ensures
            r == (index + rotations) % (CHUNK_COUNT as int),
            r < CHUNK_COUNT,
            index < CHUNK_COUNT && rotations <= CHUNK_COUNT ==> r == ring_add(
                index as int,
                rotations as int,
                CHUNK_COUNT as int,
            ),
    {
        proof {
            lemma_mask_mod((index + rotations) as usize, CHUNK_COUNT);
            if index < CHUNK_COUNT && rotations <= CHUNK_COUNT {
                lemma_ring_mod(index as int, rotations as int, CHUNK_COUNT as int);
            }
        }
        (index + rotations) & (CHUNK_COUNT - 1)
    }

    /// The position `rotations` steps before `index`: the remainder of
    /// their difference by the size of the ring, taken by masking the
    /// wrapped difference.
    fn rotate_left(index: usize, rotations: usize) -> (r: usize)
        requires
            is_power_of_two(CHUNK_COUNT),
        ensures
            r == (index - rotations) % (CHUNK_COUNT as int),
            r < CHUNK_COUNT,
            index < CHUNK_COUNT && rotations <= CHUNK_COUNT ==> r == ring_sub(
                index as int,
                rotations as int,
                CHUNK_COUNT as int,
            ),
    {
        let wrapped = index.wrapping_sub(rotations);
        proof {
            let k = CHUNK_COUNT as int;
            lemma_mask_mod(wrapped, CHUNK_COUNT);
            if index < rotations {
                lemma_word_is_multiple(CHUNK_COUNT);
                let word = usize::MAX + 1;
                lemma_fundamental_div_mod(word, k);
                lemma_mod_multiples_vanish(word / k, index - rotations, k);
            }
            if index < CHUNK_COUNT && rotations <= CHUNK_COUNT {
                lemma_ring_mod(index as int, rotations as int, k);
            }
        }
        wrapped & (CHUNK_COUNT - 1)
    }

    /// Makes an empty array whose first segment has `size` cells. Each later
    /// segment of the ring has twice the capacity of the one before it.
    pub fn new(size: usize) -> (s: Self)
        requires
            CHUNK_COUNT >= 2,
            is_power_of_two(CHUNK_COUNT),
            size > 0,
            size * pow2((CHUNK_COUNT - 1) as nat) <= usize::MAX,
        ensures
            s.wf(),
            s@ == Seq::<T>::empty(),
            s.spec_len() == 0,
            s.spec_copy_debt() == 0,
            s.spec_active() == 0,
            s.spec_frontier() == CHUNK_COUNT - 1,
            s.spec_active_capacity() == size,
            s.spec_capacity() == size * pow2((CHUNK_COUNT - 1) as nat),
            s.spec_allocated() == CHUNK_COUNT,
            s.spec_released() == 0,
            s.spec_state() == RingState::<T>::fresh(CHUNK_COUNT as int, size as int),
    {
        let mut chunks: Vec<FVec<T>> = Vec::with_capacity(CHUNK_COUNT);
        let mut allocated: usize = 0;
        let first = FVec::new(size);
        allocated = allocated + 1;
        proof {
            first.lemma_view_len();
            assert(pow2(0) == 1) by {
                vstd::arithmetic::power2::lemma2_to64();
            }
        }
        chunks.push(first);
        proof {
            assert(chunks@[0] == first);
            assert(size * pow2(0) == size) by (nonlinear_arith)
                requires
                    pow2(0) == 1,
            ;
        }
        let mut i: usize = 1;
        while i < CHUNK_COUNT
            invariant
                1 <= i <= CHUNK_COUNT,
                chunks@.len() == i,
                allocated == i,
                size > 0,
                size * pow2((CHUNK_COUNT - 1) as nat) <= usize::MAX,
                chunks@[0].spec_len() == 0,
                forall|j: int|
                    0 <= j < i ==> {
                        &&& (#[trigger] chunks@[j]).wf()
                        &&& !chunks@[j].is_free()
                        &&& chunks@[j]@.len() == chunks@[j].spec_len()
                        &&& chunks@[j].spec_capacity() == size * pow2(j as nat)
                    },
                forall|j: int|
                    1 <= j < i ==> {
                        &&& (#[trigger] chunks@[j]).spec_len() == chunks@[j - 1].spec_capacity()
                        &&& vacant_below(chunks@[j]@, chunks@[j - 1].spec_capacity() as int)
                    },
            decreases CHUNK_COUNT - i,
        {
            proof {
                lemma_pow2_unfold(i as nat);
                if i < CHUNK_COUNT - 1 {
                    lemma_pow2_strictly_increases(i as nat, (CHUNK_COUNT - 1) as nat);
                }
                assert(size * pow2(i as nat) <= size * pow2((CHUNK_COUNT - 1) as nat))
                    by (nonlinear_arith)
                    requires
                        size > 0,
                        pow2(i as nat) <= pow2((CHUNK_COUNT - 1) as nat),
                ;
                assert(2 * (size * pow2((i - 1) as nat)) == size * pow2(i as nat))
                    by (nonlinear_arith)
                    requires
                        pow2(i as nat) == 2 * pow2((i - 1) as nat),
                ;
            }
            let next = chunks[i - 1].alloc_from_last();
            proof {
                next.lemma_view_len();
            }
            chunks.push(next);
            allocated = allocated + 1;
            i += 1;
        }
        let s = AVec {
            chunks,
            current_chunk: 0,
            largest_chunk: CHUNK_COUNT - 1,
            copy_debt: 0,
            allocated,
            released: 0,
        };
        proof {
            let top = pow2((CHUNK_COUNT - 1) as nat) as int;
            lemma_pow2_pos((CHUNK_COUNT - 1) as nat);
            assert(top <= size * top) by (nonlinear_arith)
                requires
                    size > 0,
                    top > 0,
            ;
            assert(s.spec_oldest() == 0);
            assert forall|j: int| 0 <= j < CHUNK_COUNT implies #[trigger] slot_ok(
                s.chunks@,
                s.spec_oldest(),
                0,
                j,
            ) by {
                assert(at(s.chunks@, 0, j) == s.chunks@[j]);
                lemma_pow2_pos(j as nat);
                assert(size * pow2(j as nat) > 0) by (nonlinear_arith)
                    requires
                        size > 0,
                        pow2(j as nat) > 0,
                ;
                if j > 0 {
                    assert(at(s.chunks@, 0, j - 1) == s.chunks@[j - 1]);
                    lemma_pow2_unfold(j as nat);
                    assert(2 * (size * pow2((j - 1) as nat)) == size * pow2(j as nat))
                        by (nonlinear_arith)
                        requires
                            pow2(j as nat) == 2 * pow2((j - 1) as nat),
                    ;
                } else {
                    lemma_pow2_pos(0);
                }
            }
            assert(s@ =~= Seq::<T>::empty());
        }
        s
    }

    /// Appends `val` to the active segment. When that fills the segment, it
    /// becomes stale and the next segment of the ring becomes the active one.
    fn append_rotate(&mut self, val: T) -> (rotated: bool)
        requires
            old(self).wf(),
            old(self).spec_len() + 1 == old(self).spec_active_capacity() ==> old(
                self,
            ).spec_copy_debt() + 1 < CHUNK_COUNT,
        ensures
            final(self).wf(),
            final(self)@ == old(self)@.push(val),
            rotated == (old(self).spec_len() + 1 == old(self).spec_active_capacity()),
            final(self).spec_oldest() == old(self).spec_oldest(),
            final(self).spec_active() == if rotated {
                ring_add(old(self).spec_active() as int, 1, CHUNK_COUNT as int)
            } else {
                old(self).spec_active() as int
            },
            final(self).spec_frontier() == old(self).spec_frontier(),
            final(self).spec_allocated() == old(self).spec_allocated(),
            final(self).spec_released() == old(self).spec_released(),
            final(self).spec_len() == old(self).spec_len() + 1,
            final(self).spec_capacity() == old(self).spec_capacity(),
            final(self).spec_copy_debt() == old(self).spec_copy_debt() + if rotated {
                1int
            } else {
                0int
            },
            final(self).spec_active_capacity() == if rotated {
                2 * old(self).spec_active_capacity()
            } else {
                old(self).spec_active_capacity() as int
            },
    {
        let cur = self.current_chunk;
        let ghost start = self.spec_oldest();
        let ghost debt = self.copy_debt as int;
        proof {
            assert(slot_ok(self.chunks@, start, debt, debt));
        }
        self.chunks[cur].push_raw(val);
        let full = self.chunks[cur].len() == self.chunks[cur].capacity();
        if full {
            self.copy_debt = self.copy_debt + 1;
            self.current_chunk = Self::rotate_right(cur, 1);
        }
        proof {
            let c1 = old(self).chunks@;
            let c2 = self.chunks@;
            let new_debt = self.copy_debt as int;
            c2[cur as int].lemma_view_len();
            assert(c2 =~= c1.update(cur as int, c2[cur as int]));
            lemma_append_values(c1, c2, start, debt, new_debt, val);
            assert forall|j: int| 0 <= j < CHUNK_COUNT implies #[trigger] slot_ok(
                c2,
                start,
                new_debt,
                j,
            ) by {
                lemma_append_slot(c1, c2, start, debt, new_debt, val, j);
            }
            assert(slot_ok(c2, start, new_debt, new_debt));
            assert(slot_ok(c1, start, debt, new_debt));
            assert(slot_ok(c1, start, debt, CHUNK_COUNT - 1));
        }
        full
    }

    /// Retires the oldest stale segment: prepares a segment of twice the
    /// frontier's capacity, moves the values of the stale segment into its
    /// successor, releases the stale segment and puts the new one in its
    /// place, where it is the new frontier.
    fn refresh(&mut self)
        requires
            old(self).wf(),
            old(self).spec_copy_debt() > 0,
            2 * old(self).spec_capacity() <= usize::MAX,
        ensures
            final(self).wf(),
            final(self)@ == old(self)@,
            final(self).spec_active() == old(self).spec_active(),
            final(self).spec_frontier() == ring_add(
                old(self).spec_frontier() as int,
                1,
                CHUNK_COUNT as int,
            ),
            final(self).spec_len() == old(self).spec_len(),
            final(self).spec_copy_debt() == old(self).spec_copy_debt() - 1,
            final(self).spec_capacity() == 2 * old(self).spec_capacity(),
            final(self).spec_active_capacity() == old(self).spec_active_capacity(),
            final(self).spec_allocated() == old(self).spec_allocated() + 1,
            final(self).spec_released() == old(self).spec_released() + 1,
            final(self).spec_state() == old(self).spec_state().refresh(),
    {
        let ghost start = self.spec_oldest();
        let ghost debt = self.copy_debt as int;
        proof {
            lemma_pow2_exceeds((self.allocated - 1) as nat);
            lemma_pow2_unfold(self.allocated as nat);
            assert(slot_ok(self.chunks@, start, debt, 0));
            assert(slot_ok(self.chunks@, start, debt, 1));
            assert(slot_ok(self.chunks@, start, debt, debt));
            assert(slot_ok(self.chunks@, start, debt, CHUNK_COUNT - 1));
            assert(at(self.chunks@, start, CHUNK_COUNT - 1)
                == self.chunks@[self.largest_chunk as int]);
        }
        let mut fresh = self.chunks[self.largest_chunk].alloc_from_last();
        self.allocated = self.allocated + 1;
        self.largest_chunk = Self::rotate_right(self.largest_chunk, 1);
        let replace = Self::rotate_left(self.current_chunk, self.copy_debt);
        let target = Self::rotate_right(replace, 1);
        proof {
            fresh.lemma_view_len();
            assert(replace == start);
            assert(at(self.chunks@, start, 0) == self.chunks@[replace as int]);
            assert(at(self.chunks@, start, 1) == self.chunks@[target as int]);
        }
        std::mem::swap(&mut self.chunks[replace], &mut fresh);
        self.chunks[target].fill_from(&mut fresh);
        fresh.free();
        self.released = self.released + 1;
        self.copy_debt = self.copy_debt - 1;
        proof {
            let c1 = old(self).chunks@;
            let c2 = self.chunks@;
            c2[target as int].lemma_view_len();
            assert(c2 =~= c1.update(start, c2[start]).update(target as int, c2[target as int]));
            assert(refreshed(c1, c2, start, debt));
            assert(self.spec_oldest() == target);
            lemma_refresh_values(c1, c2, start, debt);
            assert forall|j: int| 0 <= j < CHUNK_COUNT implies #[trigger] slot_ok(
                c2,
                target as int,
                debt - 1,
                j,
            ) by {
                lemma_refresh_slot(c1, c2, start, debt, j);
            }
            assert(slot_ok(c2, target as int, debt - 1, CHUNK_COUNT - 1));
            assert(at(c2, target as int, CHUNK_COUNT - 1) == c2[self.largest_chunk as int]);
            assert(at(c1, start, debt) == c1[self.current_chunk as int]);
        }
    }

    /// What holds of every well-formed ring: the view has one entry for each
    /// value pushed; the active segment has room; the frontier is the active
    /// segment's capacity doubled once for each segment ahead of it; and the
    /// copy debt stays below the number of segments.
    pub proof fn lemma_invariants(&self)
        requires
            self.wf(),
        ensures
            self@.len() == self.spec_len(),
            self.spec_len() < self.spec_active_capacity(),
            self.spec_active_capacity() <= self.spec_capacity(),
            self.spec_copy_debt() <= CHUNK_COUNT - 1,
            self.spec_active() < CHUNK_COUNT,
            self.spec_frontier() == ring_sub(self.spec_oldest(), 1, CHUNK_COUNT as int),
            self.spec_capacity() == self.spec_active_capacity() * pow2(
                (CHUNK_COUNT - 1 - self.spec_copy_debt()) as nat,
            ),
            self.spec_copy_debt() > 0 ==> self.spec_active_capacity() % 2 == 0,
            self.spec_allocated() == CHUNK_COUNT + self.spec_released(),
            self.spec_state().valid(),
    {
        let c = self.chunks@;
        let start = self.spec_oldest();
        let debt = self.copy_debt as int;
        let k = CHUNK_COUNT as int;
        assert(slot_ok(c, start, debt, debt));
        assert(slot_ok(c, start, debt, k - 1));
        assert(at(c, start, debt) == c[self.current_chunk as int]);
        assert(at(c, start, k - 1) == c[self.largest_chunk as int]);
        lemma_chain_len(c, start, debt, debt);
        lemma_capacity_ratio(c, start, debt, debt, k - 1);
        let e = (k - 1 - debt) as nat;
        lemma_pow2_pos(e);
        let a = self.spec_active_capacity() as int;
        assert(a <= a * pow2(e)) by (nonlinear_arith)
            requires
                a > 0,
                pow2(e) > 0,
        ;
    }

    /// How a well-formed ring is laid out. Counted from the oldest chain
    /// segment, capacities double from each segment to the next. The
    /// segments before the active one are stale and full; the active one has
    /// room; those after it are prepared ahead, with the cursor at half the
    /// capacity and nothing appended.
    pub proof fn lemma_ring_layout(&self, j: int)
        requires
            self.wf(),
            0 <= j < CHUNK_COUNT,
        ensures
            ({
                let oldest = self.spec_oldest();
                let slot = ring_add(oldest, j, CHUNK_COUNT as int);
                let debt = self.spec_copy_debt();
                &&& 0 <= oldest < CHUNK_COUNT
                &&& 0 <= slot < CHUNK_COUNT
                &&& self.spec_segment_capacity(slot) == self.spec_segment_capacity(oldest) * pow2(
                    j as nat,
                )
                &&& j < debt ==> self.spec_segment_len(slot) == self.spec_segment_capacity(slot)
                &&& j == debt ==> {
                    &&& slot == self.spec_active()
                    &&& self.spec_segment_len(slot) == self.spec_len()
                    &&& self.spec_segment_capacity(slot) == self.spec_active_capacity()
                }
                &&& j > debt ==> 2 * self.spec_segment_len(slot) == self.spec_segment_capacity(
                    slot,
                )
                &&& j == CHUNK_COUNT - 1 ==> slot == self.spec_frontier()
            }),
    {
        let c = self.chunks@;
        let start = self.spec_oldest();
        let debt = self.copy_debt as int;
        assert(slot_ok(c, start, debt, j));
        assert(slot_ok(c, start, debt, 0));
        assert(at(c, start, 0) == c[start]);
        assert(at(c, start, j) == c[ring_add(start, j, CHUNK_COUNT as int)]);
        lemma_capacity_ratio(c, start, debt, 0, j);
    }

    /// Every value pushed is held by exactly one segment, in the cell with
    /// the value's number. Of the chain segment `j` steps after the oldest:
    /// if it is the value's home, the cell holds the value; if it comes
    /// after the home, the cell is vacant; if it comes before, it has no
    /// such cell. The home is the active segment unless the cell is among
    /// those that still wait; without copy debt the active segment holds
    /// every value.
    pub proof fn lemma_value_home(&self, index: int, j: int)
        requires
            self.wf(),
            0 <= index < self.spec_len(),
            0 <= j <= self.spec_copy_debt(),
        ensures
            ({
                let h = self.spec_home(index);
                let slot = ring_add(self.spec_oldest(), j, CHUNK_COUNT as int);
                &&& 0 <= h <= self.spec_copy_debt()
                &&& 0 <= slot < CHUNK_COUNT
                &&& self.spec_segment_cells(slot).len() == self.spec_segment_len(slot)
                &&& j == h ==> {
                    &&& index < self.spec_segment_len(slot)
                    &&& self.spec_segment_cells(slot)[index] == Some(self@[index])
                }
                &&& j > h ==> {
                    &&& index < self.spec_segment_len(slot)
                    &&& self.spec_segment_cells(slot)[index] is None
                }
                &&& j < h ==> self.spec_segment_len(slot) <= index
                &&& h == self.spec_copy_debt() <==> index >= self.spec_vacant()
            }),
    {
        let c = self.chunks@;
        let start = self.spec_oldest();
        let debt = self.copy_debt as int;
        assert(slot_ok(c, start, debt, debt));
        assert(slot_ok(c, start, debt, j));
        assert(at(c, start, debt) == c[self.current_chunk as int]);
        lemma_home(c, start, debt, debt, index, j);
        if debt > 0 {
            assert(slot_ok(c, start, debt, debt - 1));
        }
    }

    /// Every segment of a well-formed ring is live: a released segment never
    /// stays in the ring, so none can be read or released again.
    pub proof fn lemma_segments_live(&self, slot: int)
        requires
            self.wf(),
            0 <= slot < CHUNK_COUNT,
        ensures
            !self.spec_segment_is_free(slot),
    {
        let j = ring_sub(slot, self.spec_oldest(), CHUNK_COUNT as int);
        assert(slot_ok(self.chunks@, self.spec_oldest(), self.copy_debt as int, j));
        assert(at(self.chunks@, self.spec_oldest(), j) == self.chunks@[slot]);
    }

    #[verifier::when_used_as_spec(spec_allocated)]
    pub fn allocated(&self) -> (n: usize)
        ensures
            n == self.spec_allocated(),
    {
        self.allocated
    }

    #[verifier::when_used_as_spec(spec_released)]
    pub fn released(&self) -> (n: usize)
        ensures
            n == self.spec_released(),
    {
        self.released
    }

    #[verifier::when_used_as_spec(spec_copy_debt)]
    pub fn copy_debt(&self) -> (n: usize)
        ensures
            n == self.spec_copy_debt(),
    {
        self.copy_debt
    }

    #[verifier::when_used_as_spec(spec_active_capacity)]
    pub fn active_capacity(&self) -> (n: usize)
        requires
            self.wf(),
        ensures
            n == self.spec_active_capacity(),
    {
        self.chunks[self.current_chunk].capacity()
    }

    /// Retires every stale segment, oldest first, so that no copy debt is
    /// left. Each one retired doubles the capacity.
    pub fn drain(&mut self)
        requires
            old(self).wf(),
            old(self).spec_capacity() * pow2(old(self).spec_copy_debt() as nat) <= usize::MAX,
        ensures
            final(self).wf(),
            final(self)@ == old(self)@,
            final(self).spec_len() == old(self).spec_len(),
            final(self).spec_copy_debt() == 0,
            final(self).spec_active() == old(self).spec_active(),
            final(self).spec_active_capacity() == old(self).spec_active_capacity(),
            final(self).spec_frontier() == ring_add(
                old(self).spec_frontier() as int,
                old(self).spec_copy_debt() as int,
                CHUNK_COUNT as int,
            ),
            final(self).spec_capacity() == old(self).spec_capacity() * pow2(
                old(self).spec_copy_debt() as nat,
            ),
            final(self).spec_capacity() >= old(self).spec_capacity(),
            final(self).spec_released() == old(self).spec_released() + old(self).spec_copy_debt(),
            final(self).spec_allocated() == old(self).spec_allocated() + old(
                self,
            ).spec_copy_debt(),
            final(self).spec_state() == old(self).spec_state().drain(),
    {
        let ghost before = *self;
        let ghost goal = before.spec_capacity() * pow2(before.spec_copy_debt() as nat);
        proof {
            self.lemma_invariants();
            let cap = self.spec_capacity() as int;
            let p = pow2(self.spec_copy_debt() as nat) as int;
            lemma_pow2_pos(self.spec_copy_debt() as nat);
            assert(cap <= cap * p) by (nonlinear_arith)
                requires
                    cap >= 0,
                    p > 0,
            ;
        }
        while self.copy_debt > 0
            invariant
                self.wf(),
                self@ == before@,
                self.spec_len() == before.spec_len(),
                self.spec_active() == before.spec_active(),
                self.spec_active_capacity() == before.spec_active_capacity(),
                self.spec_copy_debt() <= before.spec_copy_debt(),
                self.spec_state() == before.spec_state().refreshes(
                    before.spec_copy_debt() - self.spec_copy_debt(),
                ),
                self.spec_released() == before.spec_released() + before.spec_copy_debt()
                    - self.spec_copy_debt(),
                self.spec_allocated() == before.spec_allocated() + before.spec_copy_debt()
                    - self.spec_copy_debt(),
                self.spec_frontier() == ring_add(
                    before.spec_frontier() as int,
                    before.spec_copy_debt() - self.spec_copy_debt(),
                    CHUNK_COUNT as int,
                ),
                before.spec_frontier() < CHUNK_COUNT,
                before.spec_copy_debt() < CHUNK_COUNT,
                goal <= usize::MAX,
                self.spec_capacity() * pow2(self.spec_copy_debt() as nat) == goal,
            decreases self.copy_debt,
        {
            proof {
                let d = self.copy_debt as nat;
                let cap = self.spec_capacity() as int;
                lemma_pow2_unfold(d);
                lemma_pow2_pos((d - 1) as nat);
                let p = pow2((d - 1) as nat) as int;
                assert(cap * (2 * p) == (2 * cap) * p) by (nonlinear_arith);
                assert(2 * cap <= (2 * cap) * p) by (nonlinear_arith)
                    requires
                        p > 0,
                        cap >= 0,
                ;
            }
            self.refresh();
        }
        proof {
            assert(pow2(0) == 1) by {
                vstd::arithmetic::power2::lemma2_to64();
            }
            assert(self.spec_capacity() * 1 == self.spec_capacity());
        }
    }

    /// Appends `val`. When that fills the active segment, the next segment
    /// of the ring becomes the active one, and every stale segment is
    /// retired before the call returns: the push that leaves growing to a
    /// worker, with the worker's steps done on the spot.
    pub fn push(&mut self, val: T)
        requires
            old(self).wf(),
            old(self).spec_len() + 1 == old(self).spec_active_capacity() ==> {
                &&& old(self).spec_copy_debt() + 1 < CHUNK_COUNT
                &&& old(self).spec_capacity() * pow2((old(self).spec_copy_debt() + 1) as nat)
                    <= usize::MAX
            },
        ensures
            final(self).wf(),
            final(self)@ == old(self)@.push(val),
            final(self).spec_len() == old(self).spec_len() + 1,
            final(self).spec_capacity() >= old(self).spec_capacity(),
            final(self).spec_capacity() >= final(self).spec_len(),
            final(self).spec_state() == old(self).spec_state().push(val),
            old(self).spec_copy_debt() == 0 ==> final(self).spec_copy_debt() == 0,
            old(self).spec_len() + 1 == old(self).spec_active_capacity() ==> {
                &&& final(self).spec_copy_debt() == 0
                &&& final(self).spec_active() == ring_add(
                    old(self).spec_active() as int,
                    1,
                    CHUNK_COUNT as int,
                )
                &&& final(self).spec_frontier() == ring_add(
                    old(self).spec_frontier() as int,
                    old(self).spec_copy_debt() + 1,
                    CHUNK_COUNT as int,
                )
                &&& final(self).spec_active_capacity() == 2 * old(self).spec_active_capacity()
                &&& final(self).spec_capacity() == old(self).spec_capacity() * pow2(
                    (old(self).spec_copy_debt() + 1) as nat,
                )
            },
            old(self).spec_len() + 1 != old(self).spec_active_capacity() ==> {
                &&& final(self).spec_copy_debt() == old(self).spec_copy_debt()
                &&& final(self).spec_active() == old(self).spec_active()
                &&& final(self).spec_frontier() == old(self).spec_frontier()
                &&& final(self).spec_active_capacity() == old(self).spec_active_capacity()
                &&& final(self).spec_capacity() == old(self).spec_capacity()
            },
    {
        match self.push_offloaded(val) {
            Pushed::Stored => {},
            Pushed::Rotated(_) => {
                self.drain();
            },
            Pushed::Refused(_) => {},
        }
        proof {
            self.lemma_invariants();
        }
    }

    /// The value pushed as number `index`, counted from 0. It is read from
    /// the active segment, so `index` must not lie among the cells that
    /// still wait for a stale segment's values.
    pub fn get(&self, index: usize) -> (r: &T)
        requires
            self.wf(),
            self.spec_vacant() <= index < self.spec_len(),
        ensures
            *r == self@[index as int],
    {
        proof {
            self.lemma_resident(index as int);
        }
        self.chunks[self.current_chunk].get(index)
    }

    /// Exclusive access to the value pushed as number `index`, under the
    /// same condition as [`AVec::get`].
    pub fn get_mut(&mut self, index: usize) -> (r: &mut T)
        requires
            old(self).wf(),
            old(self).spec_vacant() <= index < old(self).spec_len(),
        ensures
            *r == old(self)@[index as int],
            final(self).wf(),
            final(self)@ == old(self)@.update(index as int, *final(r)),
            final(self).spec_len() == old(self).spec_len(),
            final(self).spec_capacity() == old(self).spec_capacity(),
            final(self).spec_active_capacity() == old(self).spec_active_capacity(),
            final(self).spec_copy_debt() == old(self).spec_copy_debt(),
            final(self).spec_active() == old(self).spec_active(),
            final(self).spec_frontier() == old(self).spec_frontier(),
            final(self).spec_allocated() == old(self).spec_allocated(),
            final(self).spec_released() == old(self).spec_released(),
    {
        proof {
            self.lemma_resident(index as int);
        }
        let cur = self.current_chunk;
        let segment = &mut self.chunks[cur];
        let ghost after = *final(segment);
        let r = segment.get_mut(index);
        proof {
            let c1 = old(self).chunks@;
            let c2 = c1.update(cur as int, after);
            let start = old(self).spec_oldest();
            let debt = old(self).copy_debt as int;
            assert(slot_ok(c1, start, debt, debt));
            assert(at(c1, start, debt) == c1[cur as int]);
            c2[cur as int].lemma_view_len();
            assert(c2 =~= c1.update(cur as int, c2[cur as int]));
            lemma_overwrite_values(c1, c2, start, debt, index as int, *final(r));
            assert forall|j: int| 0 <= j < CHUNK_COUNT implies #[trigger] slot_ok(
                c2,
                start,
                debt,
                j,
            ) by {
                lemma_overwrite_slot(c1, c2, start, debt, index as int, *final(r), j);
            }
            assert(slot_ok(c1, start, debt, CHUNK_COUNT - 1));
            assert(slot_ok(c1, start, debt, debt));
        }
        r
    }

    /// Appends `val` and leaves growing to the worker. When the append fills
    /// the active segment, the next segment becomes active and the message
    /// for the worker is handed out. When that next segment is itself stale,
    /// nothing is done and `val` comes back.
    pub fn push_offloaded(&mut self, val: T) -> (r: Pushed<T>)
        requires
            old(self).wf(),
        ensures
            final(self).wf(),
            r is Refused <==> old(self).spec_len() + 1 == old(self).spec_active_capacity() && old(
                self,
            ).spec_copy_debt() + 1 == CHUNK_COUNT,
            r is Rotated <==> old(self).spec_len() + 1 == old(self).spec_active_capacity() && old(
                self,
            ).spec_copy_debt() + 1 < CHUNK_COUNT,
            r matches Pushed::Refused(v) ==> v == val && *final(self) == *old(self),
            final(self).spec_copy_debt() <= CHUNK_COUNT - 1,
            final(self).spec_capacity() >= final(self).spec_len(),
            final(self).spec_state() == old(self).spec_state().push_offloaded(val),
            !(r is Refused) ==> {
                &&& final(self)@ == old(self)@.push(val)
                &&& final(self).spec_len() == old(self).spec_len() + 1
                &&& final(self).spec_capacity() == old(self).spec_capacity()
                &&& final(self).spec_frontier() == old(self).spec_frontier()
            },
            r is Stored ==> {
                &&& final(self).spec_copy_debt() == old(self).spec_copy_debt()
                &&& final(self).spec_active() == old(self).spec_active()
                &&& final(self).spec_active_capacity() == old(self).spec_active_capacity()
            },
            r matches Pushed::Rotated(m) ==> {
                &&& final(self).spec_copy_debt() == old(self).spec_copy_debt() + 1
                &&& final(self).spec_active() == ring_add(
                    old(self).spec_active() as int,
                    1,
                    CHUNK_COUNT as int,
                )
                &&& final(self).spec_active_capacity() == 2 * old(self).spec_active_capacity()
                &&& m.op == GrowOp::Grow
                &&& m.slot == final(self).spec_active()
            },
    {
        let cur = self.current_chunk;
        proof {
            self.lemma_invariants();
        }
        if self.chunks[cur].len() + 1 == self.chunks[cur].capacity() && self.copy_debt + 1
            == CHUNK_COUNT {
            return Pushed::Refused(val);
        }
        let rotated = self.append_rotate(val);
        if rotated {
            Pushed::Rotated(GrowMessage { op: GrowOp::Grow, slot: self.current_chunk })
        } else {
            Pushed::Stored
        }
    }

    /// The worker's step. `Stop` ends the worker and leaves the ring as it
    /// is. `Grow` retires the oldest stale segment if the message names the
    /// segment that receives its values; any other `Grow` is ignored.
    pub fn handle(&mut self, msg: GrowMessage) -> (r: Handled)
        requires
            old(self).wf(),
            msg.op == GrowOp::Grow && old(self).spec_copy_debt() > 0 && msg.slot == old(
                self,
            ).spec_refresh_slot() ==> 2 * old(self).spec_capacity() <= usize::MAX,
        ensures
            final(self).wf(),
            r is Stopped <==> msg.op == GrowOp::Stop,
            r is Refreshed <==> msg.op == GrowOp::Grow && old(self).spec_copy_debt() > 0
                && msg.slot == old(self).spec_refresh_slot(),
            !(r is Refreshed) ==> *final(self) == *old(self),
            final(self).spec_copy_debt() <= old(self).spec_copy_debt(),
            final(self).spec_capacity() >= old(self).spec_capacity(),
            r is Refreshed ==> final(self).spec_state() == old(self).spec_state().refresh(),
            r is Refreshed ==> {
                &&& final(self)@ == old(self)@
                &&& final(self).spec_len() == old(self).spec_len()
                &&& final(self).spec_copy_debt() == old(self).spec_copy_debt() - 1
                &&& final(self).spec_capacity() == 2 * old(self).spec_capacity()
                &&& final(self).spec_active_capacity() == old(self).spec_active_capacity()
                &&& final(self).spec_active() == old(self).spec_active()
                &&& final(self).spec_frontier() == ring_add(
                    old(self).spec_frontier() as int,
                    1,
                    CHUNK_COUNT as int,
                )
            },
    {
        match msg.op {
            GrowOp::Stop => Handled::Stopped,
            GrowOp::Grow => {
                if self.copy_debt == 0 {
                    return Handled::Ignored;
                }
                let oldest = Self::rotate_left(self.current_chunk, self.copy_debt);
                let target = Self::rotate_right(oldest, 1);
                if msg.slot != target {
                    return Handled::Ignored;
                }
                self.refresh();
                Handled::Refreshed
            },
        }
    }

    /// The message that ends the worker, if it may be sent now: it may not
    /// while a stale segment still waits for its refresh.
    pub fn stop(&self) -> (r: Option<GrowMessage>)
        ensures
            r is Some <==> self.spec_copy_debt() == 0,
            r matches Some(m) ==> m.op == GrowOp::Stop,
    {
        if self.copy_debt == 0 {
            Some(GrowMessage { op: GrowOp::Stop, slot: self.current_chunk })
        } else {
            None
        }
    }

    #[verifier::when_used_as_spec(spec_len)]
    pub fn len(&self) -> (n: usize)
        requires
            self.wf(),
        ensures
            n == self.spec_len(),
            n == self@.len(),
    {
        proof {
            self.lemma_invariants();
        }
        self.chunks[self.current_chunk].len()
    }

    #[verifier::when_used_as_spec(spec_capacity)]
    pub fn capacity(&self) -> (n: usize)
        requires
            self.wf(),
        ensures
            n == self.spec_capacity(),
    {
        self.chunks[self.largest_chunk].capacity()
    }
}

impl<T, const CHUNK_COUNT: usize> vstd::std_specs::core::IndexSpecImpl<usize> for AVec<T, CHUNK_COUNT> {
    open spec fn index_req(&self, index: &usize) -> bool {
        &&& self.wf()
        &&& self.spec_vacant() <= *index < self.spec_len()
    }
}

impl<T, const CHUNK_COUNT: usize> std::ops::Index<usize> for AVec<T, CHUNK_COUNT> {
    type Output = T;

    /// The value pushed as number `index`, counted from 0.
    fn index(&self, index: usize) -> (r: &T)
        ensures
            *r == self@[index as int],
    {
        self.get(index)
    }
}

} // verus!
