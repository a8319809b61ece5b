//! The chain of segments that a ring holds, as a model: which segment of
//! the ring stands where, what is asked of each, which values the chain
//! holds, and how appending, refreshing and overwriting change all that.

use vstd::prelude::*;
use vstd::arithmetic::power2::{lemma_pow2_unfold, pow2};
use crate::fvec::FVec;
use crate::ring::ring_add;

verus! {

/// The values of the cells `from ..` of a row of populated cells.
pub open spec fn values<T>(cells: Seq<Option<T>>, from: int) -> Seq<T> {
    if 0 <= from <= cells.len() {
        Seq::new((cells.len() - from) as nat, |k: int| cells[from + k].unwrap())
    } else {
        Seq::empty()
    }
}

/// Every cell of `cells` from `from` on is populated.
pub open spec fn populated_from<T>(cells: Seq<Option<T>>, from: int) -> bool {
    forall|i: int| from <= i < cells.len() ==> (#[trigger] cells[i]) is Some
}

/// Every cell of `cells` below `to` is vacant.
pub open spec fn vacant_below<T>(cells: Seq<Option<T>>, to: int) -> bool {
    forall|i: int| 0 <= i < to ==> (#[trigger] cells[i]) is None
}

/// The segment `j` steps after position `start` of the ring.
pub open spec fn at<T>(chunks: Seq<FVec<T>>, start: int, j: int) -> FVec<T> {
    chunks[ring_add(start, j, chunks.len() as int)]
}

/// What the ring asks of the segment `j` steps after the oldest chain
/// segment, where `debt` is the number of stale segments.
pub open spec fn slot_ok<T>(chunks: Seq<FVec<T>>, start: int, debt: int, j: int) -> bool {
    let s = at(chunks, start, j);
    let prev = at(chunks, start, j - 1);
    &&& s.wf()
    &&& !s.is_free()
    &&& s@.len() == s.spec_len()
    &&& s.spec_capacity() > 0
    &&& j == 0 ==> populated_from(s@, 0)
    &&& j > 0 ==> {
        &&& s.spec_capacity() == 2 * prev.spec_capacity()
        &&& prev.spec_capacity() <= s.spec_len()
        &&& vacant_below(s@, prev.spec_capacity() as int)
        &&& populated_from(s@, prev.spec_capacity() as int)
    }
    &&& j < debt ==> s.spec_len() == s.spec_capacity()
    &&& j == debt ==> s.spec_len() < s.spec_capacity()
    &&& j > debt ==> s.spec_len() == prev.spec_capacity()
}

/// The values held by the first `j + 1` chain segments, in push order.
pub open spec fn chain_values<T>(chunks: Seq<FVec<T>>, start: int, j: int) -> Seq<T>
    decreases j,
{
    if j <= 0 {
        values(at(chunks, start, 0)@, 0)
    } else {
        chain_values(chunks, start, j - 1) + values(
            at(chunks, start, j)@,
            at(chunks, start, j - 1).spec_capacity() as int,
        )
    }
}

/// The values of the chain depend only on the chain's own segments.
pub proof fn lemma_chain_frame<T>(c1: Seq<FVec<T>>, c2: Seq<FVec<T>>, start: int, j: int)
    requires
        0 <= j,
        forall|i: int| 0 <= i <= j ==> #[trigger] at(c1, start, i) == at(c2, start, i),
    ensures
        chain_values(c1, start, j) == chain_values(c2, start, j),
    decreases j,
{
    assert(at(c1, start, 0) == at(c2, start, 0));
    if j > 0 {
        lemma_chain_frame(c1, c2, start, j - 1);
        assert(at(c1, start, j) == at(c2, start, j));
        assert(at(c1, start, j - 1) == at(c2, start, j - 1));
    }
}

/// Once the oldest chain segment has been moved into its successor, the
/// chain that starts at the successor holds the same values.
pub proof fn lemma_chain_shift<T>(
    c1: Seq<FVec<T>>,
    start1: int,
    c2: Seq<FVec<T>>,
    start2: int,
    j: int,
)
    requires
        0 <= j,
        at(c1, start1, 0)@.len() == at(c1, start1, 0).spec_capacity(),
        at(c1, start1, 0).spec_capacity() <= at(c1, start1, 1)@.len(),
        at(c2, start2, 0)@ == at(c1, start1, 0)@ + at(c1, start1, 1)@.skip(
            at(c1, start1, 0).spec_capacity() as int,
        ),
        at(c2, start2, 0).spec_capacity() == at(c1, start1, 1).spec_capacity(),
        forall|i: int| 1 <= i <= j ==> #[trigger] at(c2, start2, i) == at(c1, start1, i + 1),
    ensures
        chain_values(c2, start2, j) == chain_values(c1, start1, j + 1),
    decreases j,
{
    if j == 0 {
        let old0 = at(c1, start1, 0)@;
        let old1 = at(c1, start1, 1)@;
        let cap0 = at(c1, start1, 0).spec_capacity() as int;
        assert(chain_values(c1, start1, 1) == chain_values(c1, start1, 0) + values(old1, cap0));
        assert(values(old0 + old1.skip(cap0), 0) =~= values(old0, 0) + values(old1, cap0));
    } else {
        lemma_chain_shift(c1, start1, c2, start2, j - 1);
        assert(at(c2, start2, j) == at(c1, start1, j + 1));
        if j - 1 >= 1 {
            assert(at(c2, start2, j - 1) == at(c1, start1, j));
        }
    }
}

/// The chain holds as many values as the cursor of its last segment says.
pub proof fn lemma_chain_len<T>(chunks: Seq<FVec<T>>, start: int, debt: int, j: int)
    requires
        0 <= j <= debt,
        forall|i: int| 0 <= i <= j ==> #[trigger] slot_ok(chunks, start, debt, i),
    ensures
        chain_values(chunks, start, j).len() == at(chunks, start, j).spec_len(),
    decreases j,
{
    assert(slot_ok(chunks, start, debt, j));
    if j > 0 {
        lemma_chain_len(chunks, start, debt, j - 1);
        assert(slot_ok(chunks, start, debt, j - 1));
    }
}

/// `c2` is `c1` after `val` was appended to the active segment, the one
/// `debt` steps after `start`; `new_debt` is `debt + 1` if that filled the
/// segment, and `debt` if not.
pub open spec fn appended<T>(
    c1: Seq<FVec<T>>,
    c2: Seq<FVec<T>>,
    start: int,
    debt: int,
    new_debt: int,
    val: T,
) -> bool {
    let k = c1.len() as int;
    let idx = ring_add(start, debt, k);
    let s1 = c1[idx];
    let s2 = c2[idx];
    &&& 0 <= start < k
    &&& 0 <= debt < k
    &&& c2 == c1.update(idx, s2)
    &&& s2.wf()
    &&& !s2.is_free()
    &&& s2@ == s1@.push(Some(val))
    &&& s2@.len() == s2.spec_len()
    &&& s2.spec_len() == s1.spec_len() + 1
    &&& s2.spec_capacity() == s1.spec_capacity()
    &&& new_debt == if s2.spec_len() == s2.spec_capacity() {
        debt + 1
    } else {
        debt
    }
    &&& new_debt < k
    &&& forall|j: int| 0 <= j < k ==> #[trigger] slot_ok(c1, start, debt, j)
}

/// After an append, the segment `j` steps after `start` is as the ring asks.
pub proof fn lemma_append_slot<T>(
    c1: Seq<FVec<T>>,
    c2: Seq<FVec<T>>,
    start: int,
    debt: int,
    new_debt: int,
    val: T,
    j: int,
)
    requires
        appended(c1, c2, start, debt, new_debt, val),
        0 <= j < c1.len(),
    ensures
        slot_ok(c2, start, new_debt, j),
{
    let k = c1.len() as int;
    assert(slot_ok(c1, start, debt, j));
    if j != debt {
        assert(at(c2, start, j) == at(c1, start, j));
    }
    if j > 0 {
        assert(slot_ok(c1, start, debt, j - 1));
        if j - 1 != debt {
            assert(at(c2, start, j - 1) == at(c1, start, j - 1));
        }
    }
}

/// After an append, the chain holds the values it held, then `val`.
pub proof fn lemma_append_values<T>(
    c1: Seq<FVec<T>>,
    c2: Seq<FVec<T>>,
    start: int,
    debt: int,
    new_debt: int,
    val: T,
)
    requires
        appended(c1, c2, start, debt, new_debt, val),
    ensures
        chain_values(c2, start, new_debt) == chain_values(c1, start, debt).push(val),
{
    let k = c1.len() as int;
    assert(slot_ok(c1, start, debt, debt));
    let prev_cap = if debt > 0 {
        at(c1, start, debt - 1).spec_capacity() as int
    } else {
        0
    };
    if debt > 0 {
        assert forall|i: int| 0 <= i <= debt - 1 implies #[trigger] at(c1, start, i) == at(
            c2,
            start,
            i,
        ) by {}
        lemma_chain_frame(c1, c2, start, debt - 1);
        assert(slot_ok(c1, start, debt, debt - 1));
    }
    assert(values(at(c2, start, debt)@, prev_cap) =~= values(at(c1, start, debt)@, prev_cap).push(
        val,
    ));
    assert(chain_values(c2, start, debt) =~= chain_values(c1, start, debt).push(val));
    if new_debt > debt {
        assert(slot_ok(c1, start, debt, new_debt));
        assert(at(c2, start, new_debt) == at(c1, start, new_debt));
        assert(values(at(c2, start, new_debt)@, at(c2, start, debt).spec_capacity() as int)
            =~= Seq::<T>::empty());
        assert(chain_values(c2, start, new_debt) =~= chain_values(c2, start, debt));
    }
}

/// `c2` is `c1` after the oldest chain segment, at `start`, was moved into
/// its successor and a segment of twice the frontier's capacity took its
/// place.
pub open spec fn refreshed<T>(c1: Seq<FVec<T>>, c2: Seq<FVec<T>>, start: int, debt: int) -> bool {
    let k = c1.len() as int;
    let target = ring_add(start, 1, k);
    let stale = c1[start];
    let frontier = at(c1, start, k - 1);
    let fresh = c2[start];
    let filled = c2[target];
    &&& k >= 2
    &&& 0 <= start < k
    &&& 1 <= debt < k
    &&& c2 == c1.update(start, fresh).update(target, filled)
    &&& fresh.wf()
    &&& !fresh.is_free()
    &&& fresh@.len() == fresh.spec_len()
    &&& fresh.spec_capacity() == 2 * frontier.spec_capacity()
    &&& fresh.spec_len() == frontier.spec_capacity()
    &&& vacant_below(fresh@, fresh.spec_len() as int)
    &&& filled.wf()
    &&& !filled.is_free()
    &&& filled@.len() == filled.spec_len()
    &&& filled.spec_len() == c1[target].spec_len()
    &&& filled.spec_capacity() == c1[target].spec_capacity()
    &&& filled@ == stale@ + c1[target]@.skip(stale.spec_len() as int)
    &&& forall|j: int| 0 <= j < k ==> #[trigger] slot_ok(c1, start, debt, j)
}

/// After a refresh, the segment `j` steps after the new chain start is as
/// the ring asks.
pub proof fn lemma_refresh_slot<T>(
    c1: Seq<FVec<T>>,
    c2: Seq<FVec<T>>,
    start: int,
    debt: int,
    j: int,
)
    requires
        refreshed(c1, c2, start, debt),
        0 <= j < c1.len(),
    ensures
        slot_ok(c2, ring_add(start, 1, c1.len() as int), debt - 1, j),
{
    let k = c1.len() as int;
    let target = ring_add(start, 1, k);
    assert(slot_ok(c1, start, debt, 0));
    assert(slot_ok(c1, start, debt, 1));
    assert(slot_ok(c1, start, debt, k - 1));
    assert(at(c2, target, 0) == c2[target]);
    assert(at(c1, start, 1) == c1[target]);
    assert(at(c1, start, 0) == c1[start]);
    if j == 0 {
        let filled = c2[target]@;
        assert forall|i: int| 0 <= i < filled.len() implies (#[trigger] filled[i]) is Some by {
            if i < c1[start].spec_len() {
                assert(c1[start]@[i] is Some);
            } else {
                assert(c1[target]@[i] is Some);
            }
        }
    } else if j < k - 1 {
        assert(slot_ok(c1, start, debt, j + 1));
        assert(at(c2, target, j) == at(c1, start, j + 1));
        if j - 1 > 0 {
            assert(at(c2, target, j - 1) == at(c1, start, j));
        }
    } else {
        assert(at(c2, target, j) == c2[start]);
        if j - 1 > 0 {
            assert(at(c2, target, j - 1) == at(c1, start, j));
        }
    }
}

/// A refresh leaves the values of the chain as they are.
pub proof fn lemma_refresh_values<T>(c1: Seq<FVec<T>>, c2: Seq<FVec<T>>, start: int, debt: int)
    requires
        refreshed(c1, c2, start, debt),
    ensures
        chain_values(c2, ring_add(start, 1, c1.len() as int), debt - 1) == chain_values(
            c1,
            start,
            debt,
        ),
{
    let k = c1.len() as int;
    let target = ring_add(start, 1, k);
    assert(slot_ok(c1, start, debt, 0));
    assert(slot_ok(c1, start, debt, 1));
    assert(at(c2, target, 0) == c2[target]);
    assert(at(c1, start, 1) == c1[target]);
    assert(at(c1, start, 0) == c1[start]);
    assert forall|i: int| 1 <= i <= debt - 1 implies #[trigger] at(c2, target, i) == at(
        c1,
        start,
        i + 1,
    ) by {}
    lemma_chain_shift(c1, start, c2, target, debt - 1);
}

/// `c2` is `c1` after the populated cell `index` of the active segment, the
/// one `debt` steps after `start`, was given the value `val`.
pub open spec fn overwritten<T>(
    c1: Seq<FVec<T>>,
    c2: Seq<FVec<T>>,
    start: int,
    debt: int,
    index: int,
    val: T,
) -> bool {
    let k = c1.len() as int;
    let idx = ring_add(start, debt, k);
    let s1 = c1[idx];
    let s2 = c2[idx];
    &&& 0 <= start < k
    &&& 0 <= debt < k
    &&& c2 == c1.update(idx, s2)
    &&& s2.wf()
    &&& s2.is_free() == s1.is_free()
    &&& 0 <= index < s1@.len()
    &&& s1@[index] is Some
    &&& s2@ == s1@.update(index, Some(val))
    &&& s2@.len() == s2.spec_len()
    &&& s2.spec_len() == s1.spec_len()
    &&& s2.spec_capacity() == s1.spec_capacity()
    &&& forall|j: int| 0 <= j < k ==> #[trigger] slot_ok(c1, start, debt, j)
}

/// After a cell was overwritten, the segment `j` steps after `start` is as
/// the ring asks.
pub proof fn lemma_overwrite_slot<T>(
    c1: Seq<FVec<T>>,
    c2: Seq<FVec<T>>,
    start: int,
    debt: int,
    index: int,
    val: T,
    j: int,
)
    requires
        overwritten(c1, c2, start, debt, index, val),
        0 <= j < c1.len(),
    ensures
        slot_ok(c2, start, debt, j),
{
    assert(slot_ok(c1, start, debt, j));
    if j != debt {
        assert(at(c2, start, j) == at(c1, start, j));
    }
    if j > 0 {
        assert(slot_ok(c1, start, debt, j - 1));
        if j - 1 != debt {
            assert(at(c2, start, j - 1) == at(c1, start, j - 1));
        }
    }
}

/// After a cell was overwritten, the chain holds the values it held, but
/// for the one at `index`.
pub proof fn lemma_overwrite_values<T>(
    c1: Seq<FVec<T>>,
    c2: Seq<FVec<T>>,
    start: int,
    debt: int,
    index: int,
    val: T,
)
    requires
        overwritten(c1, c2, start, debt, index, val),
    ensures
        chain_values(c2, start, debt) == chain_values(c1, start, debt).update(index, val),
{
    assert(slot_ok(c1, start, debt, debt));
    lemma_chain_len(c1, start, debt, debt);
    if debt > 0 {
        assert forall|i: int| 0 <= i <= debt - 1 implies #[trigger] at(c1, start, i) == at(
            c2,
            start,
            i,
        ) by {}
        lemma_chain_frame(c1, c2, start, debt - 1);
        assert(slot_ok(c1, start, debt, debt - 1));
        lemma_chain_len(c1, start, debt, debt - 1);
        let prev_cap = at(c1, start, debt - 1).spec_capacity() as int;
        assert(at(c1, start, debt)@[index] is Some);
        assert(index >= prev_cap);
        assert(values(at(c2, start, debt)@, prev_cap) =~= values(
            at(c1, start, debt)@,
            prev_cap,
        ).update(index - prev_cap, val));
        assert(chain_values(c2, start, debt) =~= chain_values(c1, start, debt).update(index, val));
    } else {
        assert(values(at(c2, start, 0)@, 0) =~= values(at(c1, start, 0)@, 0).update(index, val));
    }
}

/// Capacities double from each segment of the ring to the next, counted from
/// the oldest chain segment.
pub proof fn lemma_capacity_ratio<T>(chunks: Seq<FVec<T>>, start: int, debt: int, i: int, j: int)
    requires
        0 <= i <= j < chunks.len(),
        forall|n: int| 0 <= n < chunks.len() ==> #[trigger] slot_ok(chunks, start, debt, n),
    ensures
        at(chunks, start, j).spec_capacity() == at(chunks, start, i).spec_capacity() * pow2(
            (j - i) as nat,
        ),
    decreases j - i,
{
    let ci = at(chunks, start, i).spec_capacity() as int;
    if i == j {
        assert(pow2(0) == 1) by {
            vstd::arithmetic::power2::lemma2_to64();
        }
        assert(ci * 1 == ci);
    } else {
        lemma_capacity_ratio(chunks, start, debt, i, j - 1);
        assert(slot_ok(chunks, start, debt, j));
        lemma_pow2_unfold((j - i) as nat);
        let p = pow2((j - 1 - i) as nat) as int;
        assert(2 * (ci * p) == ci * (2 * p)) by (nonlinear_arith);
    }
}

/// Which of the first `j + 1` chain segments holds the value with the
/// number `index`, as a count of steps after the oldest: the first one
/// whose cells reach that far.
pub open spec fn home<T>(chunks: Seq<FVec<T>>, start: int, j: int, index: int) -> int
    decreases j,
{
    if j <= 0 {
        0
    } else if index >= at(chunks, start, j - 1).spec_capacity() {
        j
    } else {
        home(chunks, start, j - 1, index)
    }
}

/// Every value of the chain is held by exactly one chain segment, in the
/// cell with the value's number: the segments before that one are too
/// short to have such a cell, and in the segments after it the cell is
/// vacant.
pub proof fn lemma_home<T>(chunks: Seq<FVec<T>>, start: int, debt: int, j: int, index: int, i: int)
    requires
        0 <= j <= debt,
        0 <= i <= j,
        forall|n: int| 0 <= n <= j ==> #[trigger] slot_ok(chunks, start, debt, n),
        0 <= index < at(chunks, start, j).spec_len(),
    ensures
        0 <= home(chunks, start, j, index) <= j,
        chain_values(chunks, start, j).len() == at(chunks, start, j).spec_len(),
        i == home(chunks, start, j, index) ==> {
            &&& index < at(chunks, start, i).spec_len()
            &&& at(chunks, start, i)@[index] == Some(chain_values(chunks, start, j)[index])
        },
        i > home(chunks, start, j, index) ==> {
            &&& index < at(chunks, start, i).spec_len()
            &&& at(chunks, start, i)@[index] is None
        },
        i < home(chunks, start, j, index) ==> at(chunks, start, i).spec_len() <= index,
        j > 0 ==> (home(chunks, start, j, index) == j <==> index >= at(
            chunks,
            start,
            j - 1,
        ).spec_capacity()),
    decreases j,
{
    lemma_chain_len(chunks, start, debt, j);
    assert(slot_ok(chunks, start, debt, j));
    if j > 0 {
        assert(slot_ok(chunks, start, debt, j - 1));
        lemma_chain_len(chunks, start, debt, j - 1);
        let prev_cap = at(chunks, start, j - 1).spec_capacity() as int;
        if index >= prev_cap {
            if i < j {
                lemma_lens_increase(chunks, start, debt, i, j - 1);
            }
        } else {
            if i < j {
                lemma_home(chunks, start, debt, j - 1, index, i);
            } else {
                lemma_home(chunks, start, debt, j - 1, index, j - 1);
            }
        }
    }
}

/// Along the stale segments the cursors do not fall.
pub proof fn lemma_lens_increase<T>(chunks: Seq<FVec<T>>, start: int, debt: int, i: int, j: int)
    requires
        0 <= i <= j < debt,
        forall|n: int| 0 <= n <= j ==> #[trigger] slot_ok(chunks, start, debt, n),
    ensures
        at(chunks, start, i).spec_len() <= at(chunks, start, j).spec_len(),
    decreases j - i,
{
    if i < j {
        lemma_lens_increase(chunks, start, debt, i, j - 1);
        assert(slot_ok(chunks, start, debt, j));
        assert(slot_ok(chunks, start, debt, j - 1));
    }
}

} // verus!
