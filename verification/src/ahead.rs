//! A single buffer that is grown ahead of need.
//!
//! Growth is asked for as soon as the buffer is filled beyond a load factor,
//! well before it is full, and is carried out in two steps so that pushes
//! can go on in between: the values present when the step starts are moved
//! to a buffer of twice the capacity, and later the values pushed meanwhile
//! follow and the new buffer takes the place of the old one. A push finds
//! the buffer exhausted only when growth did not keep up; it then has to
//! wait for the growth in flight.
//!
//! This module holds the decisions and the data; whoever drives it decides
//! which thread runs which step and holds the lock around each call.

use vstd::prelude::*;
use vstd::arithmetic::power2::{lemma_pow2_unfold, pow2};
use crate::ring::lemma_pow2_exceeds;

verus! {

/// A load factor `num / den`. Growth is asked for when the fill of the
/// buffer exceeds it.
#[derive(Clone, Copy, Debug, PartialEq, Eq, Structural)]
pub struct LoadFactor {
    pub num: usize,
    pub den: usize,
}

/// Where a growth cycle stands.
#[derive(Clone, Copy, Debug, PartialEq, Eq, Structural)]
pub enum GrowPhase {
    /// No growth is in flight.
    Idle,
    /// Growth has been claimed; no value has been moved yet.
    Claimed,
    /// The values present at the snapshot are in the new buffer; the values
    /// pushed since are still in the old one.
    Copied,
}

/// Whether a buffer of `capacity` cells that holds `len` values is due to
/// grow under the load factor `policy`: it has no cell at all, or
/// `len / capacity` exceeds `policy.num / policy.den`.
pub open spec fn growth_due(len: int, capacity: int, policy: LoadFactor) -> bool {
    capacity == 0 || len * policy.den > capacity * policy.num
}

/// The seed capacity of [`AheadVec::new`].
pub const DEFAULT_SEED: usize = 32;

/// The numerator of the load factor of [`AheadVec::new`], three quarters.
pub const DEFAULT_LOAD_NUM: usize = 3;

/// The denominator of the load factor of [`AheadVec::new`], three quarters.
pub const DEFAULT_LOAD_DEN: usize = 4;

/// The product of two machine words fits 128 bits.
proof fn lemma_product_fits(a: usize, b: usize)
    ensures
        a * b <= u128::MAX,
{
    assert(a * b <= 0xffff_ffff_ffff_ffff * 0xffff_ffff_ffff_ffff) by (nonlinear_arith)
        requires
            0 <= a <= 0xffff_ffff_ffff_ffff,
            0 <= b <= 0xffff_ffff_ffff_ffff,
    ;
}

/// The state of a grow-ahead buffer as numbers and values, free of machine
/// limits. [`AheadVec`] follows it: each of its operations says which step
/// it performs on its state.
pub struct AheadState<T> {
    /// The values pushed so far, in push order.
    pub values: Seq<T>,
    /// The capacity of the published buffer.
    pub capacity: int,
    /// The capacity of the first buffer.
    pub seed: int,
    /// The number of buffers allocated so far.
    pub grow_pow: int,
    /// Where the growth cycle stands.
    pub phase: GrowPhase,
    /// The number of values moved to the new buffer by the first step of
    /// the growth in flight.
    pub snapshot: int,
    /// The load factor beyond which growth is asked for.
    pub policy: LoadFactor,
}

impl<T> AheadState<T> {
    /// What holds of every state that a buffer can reach.
    pub open spec fn valid(self) -> bool {
        &&& self.seed > 0
        &&& self.policy.num < self.policy.den
        &&& 0 <= self.snapshot <= self.values.len() <= self.capacity
        &&& self.phase != GrowPhase::Copied ==> {
            &&& self.snapshot == 0
            &&& if self.capacity == 0 {
                self.grow_pow == 0
            } else {
                self.grow_pow > 0 && self.capacity == self.seed * pow2((self.grow_pow - 1) as nat)
            }
        }
        &&& self.phase == GrowPhase::Copied ==> {
            &&& self.capacity > 0
            &&& self.grow_pow > 1
            &&& self.capacity == self.seed * pow2((self.grow_pow - 2) as nat)
        }
    }

    /// The state of a new buffer.
    pub open spec fn fresh(seed: int, policy: LoadFactor) -> Self {
        AheadState {
            values: Seq::empty(),
            capacity: 0,
            seed,
            grow_pow: 0,
            phase: GrowPhase::Idle,
            snapshot: 0,
            policy,
        }
    }

    /// Whether the buffer is due to grow.
    pub open spec fn due(self) -> bool {
        growth_due(self.values.len() as int, self.capacity, self.policy)
    }

    /// Whether the buffer has no free cell.
    pub open spec fn exhausted(self) -> bool {
        self.values.len() == self.capacity
    }

    /// The check-and-set: growth is claimed if it is due and none is in
    /// flight.
    pub open spec fn claim(self) -> Self {
        if self.phase == GrowPhase::Idle && self.due() {
            AheadState { phase: GrowPhase::Claimed, ..self }
        } else {
            self
        }
    }

    /// The first step of a claimed growth.
    pub open spec fn prepare(self) -> Self {
        if self.phase != GrowPhase::Claimed {
            self
        } else if self.capacity == 0 {
            AheadState {
                capacity: self.seed,
                grow_pow: self.grow_pow + 1,
                phase: GrowPhase::Idle,
                ..self
            }
        } else {
            AheadState {
                grow_pow: self.grow_pow + 1,
                phase: GrowPhase::Copied,
                snapshot: self.values.len() as int,
                ..self
            }
        }
    }

    /// The second step of a growth.
    pub open spec fn publish(self) -> Self {
        if self.phase != GrowPhase::Copied {
            self
        } else {
            AheadState { capacity: 2 * self.capacity, phase: GrowPhase::Idle, snapshot: 0, ..self }
        }
    }

    /// `val` is appended.
    pub open spec fn append(self, val: T) -> Self {
        AheadState { values: self.values.push(val), ..self }
    }

    /// A push that does not wait: it appends unless the buffer is
    /// exhausted.
    pub open spec fn try_push(self, val: T) -> Self {
        if self.exhausted() {
            self
        } else {
            self.append(val)
        }
    }

    /// A push that does the worker's steps on the spot where it would have
    /// to wait for them.
    pub open spec fn push(self, val: T) -> Self {
        let claimed = self.claim();
        if claimed.exhausted() {
            claimed.prepare().publish().append(val)
        } else {
            claimed.append(val)
        }
    }

    /// The values of `vals` pushed in order.
    pub open spec fn pushes(self, vals: Seq<T>) -> Self
        decreases vals.len(),
    {
        if vals.len() == 0 {
            self
        } else {
            self.pushes(vals.drop_last()).push(vals.last())
        }
    }
}

/// The steps of a growth cycle keep the state valid and every value; at
/// most one growth is in flight, since a claim changes nothing unless the
/// phase is `Idle`; the capacity and the number of buffers allocated never
/// fall.
pub proof fn lemma_growth_steps<T>(s: AheadState<T>)
    requires
        s.valid(),
    ensures
        s.claim().valid(),
        s.prepare().valid(),
        s.publish().valid(),
        s.claim().values == s.values && s.prepare().values == s.values && s.publish().values
            == s.values,
        s.phase != GrowPhase::Idle ==> s.claim() == s,
        s.claim().claim() == s.claim(),
        s.claim().capacity == s.capacity,
        s.prepare().capacity >= s.capacity,
        s.publish().capacity >= s.capacity,
        s.prepare().grow_pow >= s.grow_pow,
        s.publish().grow_pow == s.grow_pow,
        s.exhausted() ==> s.due(),
{
    let c = s.capacity;
    let n = s.policy.num as int;
    let d = s.policy.den as int;
    if c > 0 {
        assert(c * d > c * n) by (nonlinear_arith)
            requires
                c > 0,
                n < d,
        ;
    }
    if s.phase == GrowPhase::Claimed {
        if s.capacity == 0 {
            assert(pow2(0) == 1) by {
                vstd::arithmetic::power2::lemma2_to64();
            }
            assert(s.seed * 1 == s.seed);
        }
    }
    if s.phase == GrowPhase::Copied {
        lemma_pow2_unfold((s.grow_pow - 1) as nat);
        let p = pow2((s.grow_pow - 2) as nat) as int;
        let seed = s.seed;
        assert(2 * (seed * p) == seed * (2 * p)) by (nonlinear_arith);
    }
}

/// A push appends `val` and loses nothing; the capacity does not fall and
/// covers the length; the number of buffers allocated does not fall.
pub proof fn lemma_ahead_push<T>(s: AheadState<T>, val: T)
    requires
        s.valid(),
    ensures
        s.push(val).valid(),
        s.push(val).values == s.values.push(val),
        s.push(val).capacity >= s.capacity,
        s.push(val).capacity >= s.push(val).values.len(),
        s.push(val).grow_pow >= s.grow_pow,
        s.try_push(val).valid(),
        s.exhausted() ==> s.try_push(val) == s,
        !s.exhausted() ==> s.try_push(val).values == s.values.push(val),
{
    lemma_growth_steps(s);
    let c = s.claim();
    lemma_growth_steps(c);
    if c.exhausted() {
        let p = c.prepare();
        lemma_growth_steps(p);
        if c.capacity > 0 {
            assert(p.phase == GrowPhase::Copied);
        }
    }
}

/// Of every run of pushes: the values are those that were there, followed
/// by the values pushed, in push order; the capacity has not fallen and
/// covers the length.
pub proof fn lemma_ahead_pushes<T>(s: AheadState<T>, vals: Seq<T>)
    requires
        s.valid(),
    ensures
        s.pushes(vals).valid(),
        s.pushes(vals).values == s.values + vals,
        s.pushes(vals).values.len() == s.values.len() + vals.len(),
        s.pushes(vals).capacity >= s.capacity,
        s.pushes(vals).capacity >= s.pushes(vals).values.len(),
        s.pushes(vals).grow_pow >= s.grow_pow,
    decreases vals.len(),
{
    if vals.len() == 0 {
        assert(s.values + vals =~= s.values);
    } else {
        lemma_ahead_pushes(s, vals.drop_last());
        lemma_ahead_push(s.pushes(vals.drop_last()), vals.last());
        assert((s.values + vals.drop_last()).push(vals.last()) =~= s.values + vals);
    }
}

/// A growable array over one buffer that is replaced by a larger one ahead
/// of need.
///
/// The view is the sequence of the values pushed so far, in push order.
pub struct AheadVec<T> {
    /// While idle or claimed, all values. While copied, the values pushed
    /// since the snapshot.
    data: Vec<T>,
    /// While copied, the values present at the snapshot; empty otherwise.
    next: Vec<T>,
    len: usize,
    capacity: usize,
    /// While copied, the capacity of the new buffer.
    next_capacity: usize,
    seed: usize,
    /// The number of buffers allocated so far.
    grow_pow: usize,
    phase: GrowPhase,
    policy: LoadFactor,
}

impl<T> View for AheadVec<T> {
    type V = Seq<T>;

    closed spec fn view(&self) -> Seq<T> {
        self.next@ + self.data@
    }
}

impl<T> AheadVec<T> {
    /// The invariant of the container.
    pub closed spec fn wf(&self) -> bool {
        &&& self.seed > 0
        &&& self.policy.num < self.policy.den
        &&& self.len == self.next@.len() + self.data@.len()
        &&& self.len <= self.capacity
        &&& self.phase != GrowPhase::Copied ==> {
            &&& self.next@.len() == 0
            &&& if self.capacity == 0 {
                self.grow_pow == 0
            } else {
                self.grow_pow > 0 && self.capacity == self.seed * pow2((self.grow_pow - 1) as nat)
            }
        }
        &&& self.phase == GrowPhase::Copied ==> {
            &&& self.capacity > 0
            &&& self.grow_pow > 1
            &&& self.capacity == self.seed * pow2((self.grow_pow - 2) as nat)
            &&& self.next_capacity == 2 * self.capacity
        }
    }

    /// The number of values pushed so far.
    pub closed spec fn spec_len(&self) -> usize {
        self.len
    }

    /// The capacity of the published buffer.
    pub closed spec fn spec_capacity(&self) -> usize {
        self.capacity
    }

    /// The capacity of the first buffer.
    pub closed spec fn spec_seed(&self) -> usize {
        self.seed
    }

    /// The load factor beyond which growth is asked for.
    pub closed spec fn spec_policy(&self) -> LoadFactor {
        self.policy
    }

    /// The number of buffers allocated so far: the exponent that, with the
    /// seed, gives the size of the next one.
    pub closed spec fn spec_grow_pow(&self) -> usize {
        self.grow_pow
    }

    /// Where the growth cycle stands.
    pub closed spec fn spec_phase(&self) -> GrowPhase {
        self.phase
    }

    /// The number of values that were present at the snapshot of the growth
    /// in flight and are in the new buffer already; 0 unless the phase is
    /// `Copied`.
    pub closed spec fn spec_snapshot(&self) -> nat {
        self.next@.len()
    }

    /// The state of the buffer, as the model has it.
    pub open spec fn spec_state(&self) -> AheadState<T> {
        AheadState {
            values: self@,
            capacity: self.spec_capacity() as int,
            seed: self.spec_seed() as int,
            grow_pow: self.spec_grow_pow() as int,
            phase: self.spec_phase(),
            snapshot: self.spec_snapshot() as int,
            policy: self.spec_policy(),
        }
    }

    /// Whether a growth is in flight.
    pub open spec fn spec_is_growing(&self) -> bool {
        self.spec_phase() != GrowPhase::Idle
    }

    /// What holds of every well-formed container: the view has one entry
    /// for each value pushed; the capacity is at least the length; the
    /// capacity is the seed doubled once for each buffer published after the
    /// first; and an exhausted buffer is always due to grow.
    pub proof fn lemma_invariants(&self)
        requires
            self.wf(),
        ensures
            self@.len() == self.spec_len(),
            self.spec_len() <= self.spec_capacity(),
            self.spec_snapshot() <= self.spec_len(),
            self.spec_phase() != GrowPhase::Copied ==> self.spec_snapshot() == 0,
            self.spec_phase() == GrowPhase::Copied ==> self.spec_capacity() > 0,
            self.spec_capacity() == 0 ==> self.spec_grow_pow() == 0,
            self.spec_capacity() > 0 ==> self.spec_capacity() == self.spec_seed() * pow2(
                (self.spec_grow_pow() - if self.spec_phase() == GrowPhase::Copied {
                    2int
                } else {
                    1int
                }) as nat,
            ),
            self.spec_len() == self.spec_capacity() ==> growth_due(
                self.spec_len() as int,
                self.spec_capacity() as int,
                self.spec_policy(),
            ),
            self.spec_state().valid(),
    {
        let c = self.capacity as int;
        let n = self.policy.num as int;
        let d = self.policy.den as int;
        if c > 0 {
            assert(c * d > c * n) by (nonlinear_arith)
                requires
                    c > 0,
                    n < d,
            ;
        }
    }

    /// An empty container with the default seed capacity and load factor.
    /// No buffer is allocated before the first push.
    pub fn new() -> (s: Self)
        ensures
            s.wf(),
            s@ == Seq::<T>::empty(),
            s.spec_len() == 0,
            s.spec_capacity() == 0,
            s.spec_seed() == DEFAULT_SEED,
            s.spec_policy() == (LoadFactor { num: DEFAULT_LOAD_NUM, den: DEFAULT_LOAD_DEN }),
            s.spec_grow_pow() == 0,
            s.spec_phase() == GrowPhase::Idle,
    {
        Self::with_policy(DEFAULT_SEED, LoadFactor { num: DEFAULT_LOAD_NUM, den: DEFAULT_LOAD_DEN })
    }

    /// An empty container whose first buffer will have `seed` cells and
    /// which asks for growth beyond the load factor `policy`.
    pub fn with_policy(seed: usize, policy: LoadFactor) -> (s: Self)
        requires
            seed > 0,
            policy.num < policy.den,
        ensures
            s.wf(),
            s@ == Seq::<T>::empty(),
            s.spec_len() == 0,
            s.spec_capacity() == 0,
            s.spec_seed() == seed,
            s.spec_policy() == policy,
            s.spec_grow_pow() == 0,
            s.spec_phase() == GrowPhase::Idle,
            s.spec_state() == AheadState::<T>::fresh(seed as int, policy),
    {
        let s = AheadVec {
            data: Vec::new(),
            next: Vec::new(),
            len: 0,
            capacity: 0,
            next_capacity: 0,
            seed,
            grow_pow: 0,
            phase: GrowPhase::Idle,
            policy,
        };
        assert(s@ =~= Seq::<T>::empty());
        s
    }

    #[verifier::when_used_as_spec(spec_len)]
    pub fn len(&self) -> (n: usize)
        ensures
            n == self.spec_len(),
            self.wf() ==> n == self@.len(),
    {
        self.len
    }

    #[verifier::when_used_as_spec(spec_capacity)]
    pub fn capacity(&self) -> (n: usize)
        ensures
            n == self.spec_capacity(),
    {
        self.capacity
    }

    #[verifier::when_used_as_spec(spec_is_growing)]
    pub fn is_growing(&self) -> (b: bool)
        ensures
            b == self.spec_is_growing(),
    {
        self.phase != GrowPhase::Idle
    }

    #[verifier::when_used_as_spec(spec_phase)]
    pub fn phase(&self) -> (p: GrowPhase)
        ensures
            p == self.spec_phase(),
    {
        self.phase
    }

    #[verifier::when_used_as_spec(spec_grow_pow)]
    pub fn grow_pow(&self) -> (n: usize)
        ensures
            n == self.spec_grow_pow(),
    {
        self.grow_pow
    }

    /// Whether the buffer is due to grow and no growth is in flight.
    pub fn should_grow(&self) -> (b: bool)
        ensures
            b == (!self.spec_is_growing() && growth_due(
                self.spec_len() as int,
                self.spec_capacity() as int,
                self.spec_policy(),
            )),
    {
        if self.phase != GrowPhase::Idle {
            return false;
        }
        if self.capacity == 0 {
            return true;
        }
        proof {
            lemma_product_fits(self.len, self.policy.den);
            lemma_product_fits(self.capacity, self.policy.num);
        }
        let filled: u128 = self.len as u128 * self.policy.den as u128;
        let allowed: u128 = self.capacity as u128 * self.policy.num as u128;
        filled > allowed
    }

    /// The check-and-set that starts a growth cycle: it claims the growth if
    /// the buffer is due to grow and no growth is in flight, and says
    /// whether it did. Whoever gets `true` owes the two steps of the growth.
    pub fn claim_grow(&mut self) -> (claimed: bool)
        requires
            old(self).wf(),
        ensures
            final(self).wf(),
            claimed == (!old(self).spec_is_growing() && growth_due(
                old(self).spec_len() as int,
                old(self).spec_capacity() as int,
                old(self).spec_policy(),
            )),
            !claimed ==> *final(self) == *old(self),
            final(self).spec_state() == old(self).spec_state().claim(),
            claimed ==> {
                &&& final(self).spec_phase() == GrowPhase::Claimed
                &&& final(self)@ == old(self)@
                &&& final(self).spec_len() == old(self).spec_len()
                &&& final(self).spec_capacity() == old(self).spec_capacity()
                &&& final(self).spec_seed() == old(self).spec_seed()
                &&& final(self).spec_policy() == old(self).spec_policy()
                &&& final(self).spec_grow_pow() == old(self).spec_grow_pow()
                &&& final(self).spec_snapshot() == 0
            },
    {
        let due = self.should_grow();
        if due {
            self.phase = GrowPhase::Claimed;
        }
        due
    }

    /// The first step of a claimed growth. It allocates the next buffer: of
    /// the seed capacity if there is none yet, of twice the capacity
    /// otherwise. A first buffer is published at once and the cycle is
    /// over. Otherwise the values present now, the snapshot, are moved to
    /// the new buffer; pushes go on into the old one.
    pub fn prepare_grow(&mut self)
        requires
            old(self).wf(),
            old(self).spec_phase() == GrowPhase::Claimed,
            2 * old(self).spec_capacity() <= usize::MAX,
        ensures
            final(self).wf(),
            final(self)@ == old(self)@,
            final(self).spec_len() == old(self).spec_len(),
            final(self).spec_seed() == old(self).spec_seed(),
            final(self).spec_policy() == old(self).spec_policy(),
            final(self).spec_grow_pow() == old(self).spec_grow_pow() + 1,
            final(self).spec_state() == old(self).spec_state().prepare(),
            old(self).spec_capacity() == 0 ==> {
                &&& final(self).spec_phase() == GrowPhase::Idle
                &&& final(self).spec_capacity() == old(self).spec_seed()
                &&& final(self).spec_snapshot() == 0
            },
            old(self).spec_capacity() > 0 ==> {
                &&& final(self).spec_phase() == GrowPhase::Copied
                &&& final(self).spec_capacity() == old(self).spec_capacity()
                &&& final(self).spec_snapshot() == old(self).spec_len()
            },
    {
        proof {
            if self.capacity > 0 {
                lemma_pow2_exceeds((self.grow_pow - 1) as nat);
                let p = pow2((self.grow_pow - 1) as nat) as int;
                let seed = self.seed as int;
                assert(p <= seed * p) by (nonlinear_arith)
                    requires
                        seed > 0,
                        p > 0,
                ;
                lemma_pow2_unfold((self.grow_pow + 1 - 1) as nat);
            } else {
                assert(pow2(0) == 1) by {
                    vstd::arithmetic::power2::lemma2_to64();
                }
                assert(self.seed * 1 == self.seed);
            }
        }
        if self.capacity == 0 {
            self.data = Vec::with_capacity(self.seed);
            self.capacity = self.seed;
            self.grow_pow = self.grow_pow + 1;
            self.phase = GrowPhase::Idle;
            assert(self@ =~= old(self)@);
        } else {
            let new_capacity = self.capacity * 2;
            let mut next: Vec<T> = Vec::with_capacity(new_capacity);
            next.append(&mut self.data);
            self.next = next;
            self.next_capacity = new_capacity;
            self.grow_pow = self.grow_pow + 1;
            self.phase = GrowPhase::Copied;
            assert(self@ =~= old(self)@);
        }
    }

    /// The second step of a growth. It moves the values pushed since the
    /// snapshot to the new buffer, publishes the new buffer with its
    /// capacity, releases the old one and ends the cycle.
    pub fn publish_grow(&mut self)
        requires
            old(self).wf(),
            old(self).spec_phase() == GrowPhase::Copied,
        ensures
            final(self).wf(),
            final(self)@ == old(self)@,
            final(self).spec_len() == old(self).spec_len(),
            final(self).spec_seed() == old(self).spec_seed(),
            final(self).spec_policy() == old(self).spec_policy(),
            final(self).spec_grow_pow() == old(self).spec_grow_pow(),
            final(self).spec_phase() == GrowPhase::Idle,
            final(self).spec_capacity() == 2 * old(self).spec_capacity(),
            final(self).spec_snapshot() == 0,
            final(self).spec_state() == old(self).spec_state().publish(),
    {
        proof {
            lemma_pow2_unfold((self.grow_pow - 1) as nat);
            let p = pow2((self.grow_pow - 2) as nat) as int;
            let seed = self.seed as int;
            assert(2 * (seed * p) == seed * (2 * p)) by (nonlinear_arith);
        }
        self.next.append(&mut self.data);
        std::mem::swap(&mut self.data, &mut self.next);
        self.next = Vec::new();
        self.capacity = self.next_capacity;
        self.phase = GrowPhase::Idle;
        assert(self@ =~= old(self)@);
    }

    /// Appends `val` if the buffer has a free cell. If it is exhausted,
    /// nothing is done and `val` comes back: the caller has to wait for the
    /// growth in flight.
    pub fn try_push(&mut self, val: T) -> (r: Result<(), T>)
        requires
            old(self).wf(),
        ensures
            final(self).wf(),
            r is Err <==> old(self).spec_len() == old(self).spec_capacity(),
            r matches Err(v) ==> v == val && *final(self) == *old(self),
            final(self).spec_state() == old(self).spec_state().try_push(val),
            r is Ok ==> {
                &&& final(self)@ == old(self)@.push(val)
                &&& final(self).spec_len() == old(self).spec_len() + 1
                &&& final(self).spec_capacity() == old(self).spec_capacity()
                &&& final(self).spec_seed() == old(self).spec_seed()
                &&& final(self).spec_policy() == old(self).spec_policy()
                &&& final(self).spec_grow_pow() == old(self).spec_grow_pow()
                &&& final(self).spec_phase() == old(self).spec_phase()
                &&& final(self).spec_snapshot() == old(self).spec_snapshot()
            },
    {
        if self.len == self.capacity {
            return Err(val);
        }
        self.data.push(val);
        self.len = self.len + 1;
        assert(self@ =~= old(self)@.push(val));
        Ok(())
    }

    /// Appends `val`, doing on the spot what a worker would do meanwhile:
    /// growth is claimed if the buffer is due to grow and no growth is in
    /// flight; if the buffer is exhausted, the growth in flight is carried
    /// through; then the value is appended.
    pub fn push(&mut self, val: T)
        requires
            old(self).wf(),
            old(self).spec_len() == old(self).spec_capacity() && old(self).spec_phase()
                != GrowPhase::Copied ==> 2 * old(self).spec_capacity() <= usize::MAX,
        ensures
            final(self).wf(),
            final(self)@ == old(self)@.push(val),
            final(self).spec_len() == old(self).spec_len() + 1,
            final(self).spec_capacity() >= old(self).spec_capacity(),
            final(self).spec_capacity() >= final(self).spec_len(),
            final(self).spec_grow_pow() >= old(self).spec_grow_pow(),
            final(self).spec_state() == old(self).spec_state().push(val),
            final(self).spec_seed() == old(self).spec_seed(),
            final(self).spec_policy() == old(self).spec_policy(),
            old(self).spec_len() == old(self).spec_capacity() ==> {
                &&& final(self).spec_phase() == GrowPhase::Idle
                &&& final(self).spec_capacity() == if old(self).spec_capacity() == 0 {
                    old(self).spec_seed() as int
                } else {
                    2 * old(self).spec_capacity()
                }
            },
            old(self).spec_len() < old(self).spec_capacity() ==> {
                &&& final(self).spec_capacity() == old(self).spec_capacity()
                &&& final(self).spec_grow_pow() == old(self).spec_grow_pow()
                &&& final(self).spec_snapshot() == old(self).spec_snapshot()
                &&& final(self).spec_phase() == if old(self).spec_phase() == GrowPhase::Idle
                    && growth_due(
                    old(self).spec_len() as int,
                    old(self).spec_capacity() as int,
                    old(self).spec_policy(),
                ) {
                    GrowPhase::Claimed
                } else {
                    old(self).spec_phase()
                }
            },
    {
        proof {
            self.lemma_invariants();
        }
        self.claim_grow();
        if self.len == self.capacity {
            if self.phase == GrowPhase::Claimed {
                self.prepare_grow();
            }
            if self.phase == GrowPhase::Copied {
                self.publish_grow();
            }
        }
        self.data.push(val);
        self.len = self.len + 1;
        assert(self@ =~= old(self)@.push(val));
    }

    /// The value pushed as number `index`, counted from 0.
    pub fn get(&self, index: usize) -> (r: &T)
        requires
            self.wf(),
            index < self.spec_len(),
        ensures
            *r == self@[index as int],
    {
        if index < self.next.len() {
            &self.next[index]
        } else {
            &self.data[index - self.next.len()]
        }
    }

    /// Exclusive access to the value pushed as number `index`.
    pub fn get_mut(&mut self, index: usize) -> (r: &mut T)
        requires
            old(self).wf(),
            index < old(self).spec_len(),
        ensures
            *r == old(self)@[index as int],
            final(self).wf(),
            final(self)@ == old(self)@.update(index as int, *final(r)),
            final(self).spec_len() == old(self).spec_len(),
            final(self).spec_capacity() == old(self).spec_capacity(),
            final(self).spec_seed() == old(self).spec_seed(),
            final(self).spec_policy() == old(self).spec_policy(),
            final(self).spec_grow_pow() == old(self).spec_grow_pow(),
            final(self).spec_phase() == old(self).spec_phase(),
            final(self).spec_snapshot() == old(self).spec_snapshot(),
    {
        if index < self.next.len() {
            &mut self.next[index]
        } else {
            let offset = index - self.next.len();
            &mut self.data[offset]
        }
    }
}

impl<T> vstd::std_specs::core::IndexSpecImpl<usize> for AheadVec<T> {
    open spec fn index_req(&self, index: &usize) -> bool {
        &&& self.wf()
        &&& *index < self.spec_len()
    }
}

impl<T> std::ops::Index<usize> for AheadVec<T> {
    type Output = T;

    /// The value pushed as number `index`, counted from 0.
    fn index(&self, index: usize) -> (r: &T)
        ensures
            *r == self@[index as int],
    {
        self.get(index)
    }
}

} // verus!
