//! What holds of every run of pushes, stated over the views that the
//! contracts of the containers speak of.
//!
//! Each `push` of this crate turns the view `s` of its container into
//! `s.push(val)`, steps of growth leave the view as it is, and each `get`
//! returns the entry of the view at its index.

use vstd::prelude::*;

verus! {

/// The view of a container whose view was `start`, after the values of
/// `vals` were pushed in order.
pub open spec fn after_pushes<T>(start: Seq<T>, vals: Seq<T>) -> Seq<T>
    decreases vals.len(),
{
    if vals.len() == 0 {
        start
    } else {
        after_pushes(start, vals.drop_last()).push(vals.last())
    }
}

/// Pushes append: after the values of `vals` were pushed, the view is what
/// it was, followed by `vals`.
pub proof fn lemma_pushes_append<T>(start: Seq<T>, vals: Seq<T>)
    ensures
        after_pushes(start, vals) == start + vals,
    decreases vals.len(),
{
    if vals.len() == 0 {
        assert(start + vals =~= start);
    } else {
        lemma_pushes_append(start, vals.drop_last());
        assert((start + vals.drop_last()).push(vals.last()) =~= start + vals);
    }
}

/// Append order: after the values of `vals` were pushed onto an empty
/// container, the entry at `i` is the value pushed as number `i`.
pub proof fn lemma_append_order<T>(vals: Seq<T>, i: int)
    requires
        0 <= i < vals.len(),
    ensures
        after_pushes(Seq::empty(), vals)[i] == vals[i],
{
    lemma_pushes_append(Seq::empty(), vals);
    assert(Seq::<T>::empty() + vals =~= vals);
}

/// No value is lost: after the values of `vals` were pushed, the length has
/// grown by exactly their number.
pub proof fn lemma_length_counts_pushes<T>(start: Seq<T>, vals: Seq<T>)
    ensures
        after_pushes(start, vals).len() == start.len() + vals.len(),
{
    lemma_pushes_append(start, vals);
}

} // verus!
