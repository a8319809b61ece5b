//! The pipelined ring as a state of numbers and values, free of machine
//! limits, with the steps that change it and what holds of every run of
//! steps.
//!
//! [`crate::avec::AVec`] follows this model: each of its operations says
//! which step of the model it performs on its state.

use vstd::prelude::*;
use vstd::arithmetic::power2::{lemma_pow2_pos, lemma_pow2_unfold, pow2};
use crate::ring::{ring_add, ring_sub};

verus! {

/// The state of a ring.
pub struct RingState<T> {
    /// The values pushed so far, in push order.
    pub values: Seq<T>,
    /// The number of segments.
    pub size: int,
    /// The position of the active segment.
    pub active: int,
    /// The position of the frontier.
    pub frontier: int,
    /// The copy debt: the number of stale segments.
    pub debt: int,
    /// The capacity of the active segment.
    pub active_capacity: int,
    /// The capacity of the frontier.
    pub capacity: int,
    /// The number of segments allocated so far.
    pub allocated: int,
    /// The number of segments released so far.
    pub released: int,
}

impl<T> RingState<T> {
    /// What holds of every state that a ring can reach.
    pub open spec fn valid(self) -> bool {
        &&& self.size >= 2
        &&& 0 <= self.active < self.size
        &&& 0 <= self.frontier < self.size
        &&& 0 <= self.debt < self.size
        &&& self.frontier == ring_sub(ring_sub(self.active, self.debt, self.size), 1, self.size)
        &&& self.values.len() < self.active_capacity
        &&& self.capacity == self.active_capacity * pow2((self.size - 1 - self.debt) as nat)
        &&& self.released >= 0
        &&& self.allocated == self.size + self.released
    }

    /// The state of a new ring of `size` segments whose first segment has
    /// `seed` cells.
    pub open spec fn fresh(size: int, seed: int) -> Self {
        RingState {
            values: Seq::empty(),
            size,
            active: 0,
            frontier: size - 1,
            debt: 0,
            active_capacity: seed,
            capacity: seed * pow2((size - 1) as nat),
            allocated: size,
            released: 0,
        }
    }

    /// Whether one more value fills the active segment.
    pub open spec fn fills(self) -> bool {
        self.values.len() + 1 == self.active_capacity
    }

    /// `val` is appended to the active segment.
    pub open spec fn append(self, val: T) -> Self {
        RingState { values: self.values.push(val), ..self }
    }

    /// The active segment becomes stale and the next one active.
    pub open spec fn rotate(self) -> Self {
        RingState {
            active: ring_add(self.active, 1, self.size),
            debt: self.debt + 1,
            active_capacity: 2 * self.active_capacity,
            ..self
        }
    }

    /// The worker's step: the oldest stale segment is moved into its
    /// successor and released, and a segment of twice the frontier's
    /// capacity is allocated in its place. Without copy debt nothing
    /// changes.
    pub open spec fn refresh(self) -> Self {
        if self.debt <= 0 {
            self
        } else {
            RingState {
                frontier: ring_add(self.frontier, 1, self.size),
                debt: self.debt - 1,
                capacity: 2 * self.capacity,
                allocated: self.allocated + 1,
                released: self.released + 1,
                ..self
            }
        }
    }

    /// `n` steps of the worker.
    pub open spec fn refreshes(self, n: int) -> Self
        decreases n,
    {
        if n <= 0 {
            self
        } else {
            self.refreshes(n - 1).refresh()
        }
    }

    /// The worker's step, repeated until no copy debt is left.
    pub open spec fn drain(self) -> Self {
        self.refreshes(self.debt)
    }

    /// A push that leaves growing to the worker. It is refused, and
    /// nothing changes, when it would fill the active segment while every
    /// other segment is stale.
    pub open spec fn push_offloaded(self, val: T) -> Self {
        if self.fills() && self.debt + 1 == self.size {
            self
        } else if self.fills() {
            self.append(val).rotate()
        } else {
            self.append(val)
        }
    }

    /// A push that grows on the spot: when it fills the active segment, all
    /// copy debt is drained before it returns.
    pub open spec fn push(self, val: T) -> Self {
        if self.fills() {
            self.append(val).rotate().drain()
        } else {
            self.append(val)
        }
    }

    /// The values of `vals` pushed in order, growing on the spot.
    pub open spec fn pushes(self, vals: Seq<T>) -> Self
        decreases vals.len(),
    {
        if vals.len() == 0 {
            self
        } else {
            self.pushes(vals.drop_last()).push(vals.last())
        }
    }
}

/// A new ring is in a valid state.
pub proof fn lemma_fresh_valid<T>(size: int, seed: int)
    requires
        size >= 2,
        seed > 0,
    ensures
        RingState::<T>::fresh(size, seed).valid(),
{
}

/// Rotating after the append that filled the active segment keeps the
/// state valid and the capacity as it is.
proof fn lemma_rotate<T>(s: RingState<T>, val: T)
    requires
        s.valid(),
        s.fills(),
        s.debt + 1 < s.size,
    ensures
        s.append(val).rotate().valid(),
{
    lemma_pow2_unfold((s.size - 1 - s.debt) as nat);
    let p = pow2((s.size - 2 - s.debt) as nat) as int;
    let a = s.active_capacity;
    assert(a * (2 * p) == (2 * a) * p) by (nonlinear_arith);
}

/// The copy debt never reaches the number of segments: a push that leaves
/// growing to the worker keeps the state valid. It either appends `val` or
/// is refused and changes nothing; it never changes the capacity, and it
/// never lowers the copy debt.
pub proof fn lemma_push_offloaded<T>(s: RingState<T>, val: T)
    requires
        s.valid(),
    ensures
        s.push_offloaded(val).valid(),
        s.push_offloaded(val).debt <= s.size - 1,
        s.push_offloaded(val).debt >= s.debt,
        s.push_offloaded(val).capacity == s.capacity,
        s.push_offloaded(val).capacity >= s.push_offloaded(val).values.len(),
        s.fills() && s.debt + 1 == s.size ==> s.push_offloaded(val) == s,
        !(s.fills() && s.debt + 1 == s.size) ==> s.push_offloaded(val).values == s.values.push(
            val,
        ),
{
    if s.fills() && s.debt + 1 < s.size {
        lemma_rotate(s, val);
    }
    lemma_capacity_covers(s);
    lemma_capacity_covers(s.push_offloaded(val));
}

/// In a valid state the frontier's capacity is at least the active
/// segment's, which exceeds the number of values.
pub proof fn lemma_capacity_covers<T>(s: RingState<T>)
    requires
        s.valid(),
    ensures
        s.values.len() < s.active_capacity <= s.capacity,
{
    let e = (s.size - 1 - s.debt) as nat;
    lemma_pow2_pos(e);
    let a = s.active_capacity;
    assert(a <= a * pow2(e)) by (nonlinear_arith)
        requires
            a > 0,
            pow2(e) > 0,
    ;
}

/// One step of the worker on a ring with copy debt lowers the debt by
/// exactly one, doubles the capacity, releases one segment and allocates
/// one, and keeps every value.
pub proof fn lemma_refresh<T>(s: RingState<T>)
    requires
        s.valid(),
        s.debt > 0,
    ensures
        s.refresh().valid(),
        s.refresh().debt == s.debt - 1,
        s.refresh().values == s.values,
        s.refresh().capacity == 2 * s.capacity,
        s.refresh().active == s.active,
        s.refresh().active_capacity == s.active_capacity,
        s.refresh().released == s.released + 1,
        s.refresh().allocated == s.allocated + 1,
{
    lemma_pow2_unfold((s.size - s.debt) as nat);
    let p = pow2((s.size - 1 - s.debt) as nat) as int;
    let a = s.active_capacity;
    assert(2 * (a * p) == a * (2 * p)) by (nonlinear_arith);
}

/// With no push in between, the copy debt falls by one with each step of
/// the worker: after `n` steps, `n` at most the debt, it is lower by `n`,
/// so it is 0 after as many steps as there was debt. The values stay, the
/// capacity has doubled `n` times, and `n` segments have been released and
/// as many allocated.
pub proof fn lemma_refreshes<T>(s: RingState<T>, n: int)
    requires
        s.valid(),
        0 <= n <= s.debt,
    ensures
        s.refreshes(n).valid(),
        s.refreshes(n).debt == s.debt - n,
        s.refreshes(n).values == s.values,
        s.refreshes(n).active == s.active,
        s.refreshes(n).active_capacity == s.active_capacity,
        s.refreshes(n).size == s.size,
        s.refreshes(n).frontier == ring_add(s.frontier, n, s.size),
        s.refreshes(n).capacity == s.capacity * pow2(n as nat),
        s.refreshes(n).capacity >= s.capacity,
        s.refreshes(n).released == s.released + n,
        s.refreshes(n).allocated == s.allocated + n,
    decreases n,
{
    let c = s.capacity;
    if n == 0 {
        assert(pow2(0) == 1) by {
            vstd::arithmetic::power2::lemma2_to64();
        }
        assert(c * 1 == c);
    } else {
        lemma_refreshes(s, n - 1);
        lemma_refresh(s.refreshes(n - 1));
        lemma_pow2_unfold(n as nat);
        lemma_pow2_pos((n - 1) as nat);
        let p = pow2((n - 1) as nat) as int;
        assert(2 * (c * p) == c * (2 * p)) by (nonlinear_arith);
        lemma_capacity_covers(s);
        assert(c <= c * (2 * p)) by (nonlinear_arith)
            requires
                c >= 0,
                p > 0,
        ;
    }
}

/// Draining leaves no copy debt and keeps every value.
pub proof fn lemma_drain<T>(s: RingState<T>)
    requires
        s.valid(),
    ensures
        s.drain().valid(),
        s.drain().debt == 0,
        s.drain().values == s.values,
        s.drain().capacity == s.capacity * pow2(s.debt as nat),
        s.drain().capacity >= s.capacity,
        s.drain().released == s.released + s.debt,
{
    lemma_refreshes(s, s.debt);
}

/// A push that grows on the spot appends `val` and loses nothing; the
/// capacity does not fall and covers the length; and a ring without copy
/// debt has none afterwards, whether or not the push rotated.
pub proof fn lemma_push<T>(s: RingState<T>, val: T)
    requires
        s.valid(),
        s.fills() ==> s.debt + 1 < s.size,
    ensures
        s.push(val).valid(),
        s.push(val).values == s.values.push(val),
        s.push(val).values.len() == s.values.len() + 1,
        s.push(val).capacity >= s.capacity,
        s.push(val).capacity >= s.push(val).values.len(),
        s.push(val).capacity == s.capacity || s.fills(),
        s.fills() ==> s.push(val).debt == 0,
        s.debt == 0 ==> s.push(val).debt == 0,
        s.push(val).allocated == s.push(val).size + s.push(val).released,
{
    if s.fills() {
        lemma_rotate(s, val);
        lemma_drain(s.append(val).rotate());
    }
    lemma_capacity_covers(s.push(val));
}

/// Of every run of pushes on a ring without copy debt: the values are
/// those that were there, followed by the values pushed, in push order; no
/// copy debt is left after any of them; the capacity has not fallen and
/// covers the length; and every segment ever allocated is one of the
/// ring's or has been released.
pub proof fn lemma_pushes<T>(s: RingState<T>, vals: Seq<T>)
    requires
        s.valid(),
        s.debt == 0,
    ensures
        s.pushes(vals).valid(),
        s.pushes(vals).debt == 0,
        s.pushes(vals).values == s.values + vals,
        s.pushes(vals).values.len() == s.values.len() + vals.len(),
        s.pushes(vals).capacity >= s.capacity,
        s.pushes(vals).capacity >= s.pushes(vals).values.len(),
        s.pushes(vals).allocated == s.pushes(vals).size + s.pushes(vals).released,
    decreases vals.len(),
{
    if vals.len() == 0 {
        assert(s.values + vals =~= s.values);
        lemma_capacity_covers(s);
    } else {
        lemma_pushes(s, vals.drop_last());
        lemma_push(s.pushes(vals.drop_last()), vals.last());
        assert((s.values + vals.drop_last()).push(vals.last()) =~= s.values + vals);
    }
}

/// Append order: after the values of `vals` were pushed onto a new ring, it
/// holds exactly as many values, and the value at `i` is the one pushed as
/// number `i`.
pub proof fn lemma_ring_append_order<T>(size: int, seed: int, vals: Seq<T>, i: int)
    requires
        size >= 2,
        seed > 0,
        0 <= i < vals.len(),
    ensures
        RingState::<T>::fresh(size, seed).pushes(vals).values.len() == vals.len(),
        RingState::<T>::fresh(size, seed).pushes(vals).values[i] == vals[i],
{
    lemma_fresh_valid::<T>(size, seed);
    lemma_pushes(RingState::<T>::fresh(size, seed), vals);
    assert(Seq::<T>::empty() + vals =~= vals);
}

} // verus!
