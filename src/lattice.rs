use crate::field::{Elt, PRIME};
use vstd::prelude::*;

verus! {

/// How far two pointers are known to be equal, ordered `Equal < NotEqual < Unknown`.
#[derive(Clone, Copy, Debug, PartialEq, Eq, Structural, PartialOrd, Ord, Hash)]
pub enum PtrEq {
    Equal,
    NotEqual,
    Unknown,
}

/// The position of a `PtrEq` in its order.
pub open spec fn eq_rank(a: PtrEq) -> nat {
    match a {
        PtrEq::Equal => 0,
        PtrEq::NotEqual => 1,
        PtrEq::Unknown => 2,
    }
}

/// The lesser of two `PtrEq` values: the more certain one.
pub open spec fn eq_meet(a: PtrEq, b: PtrEq) -> PtrEq {
    if eq_rank(b) < eq_rank(a) { b } else { a }
}

/// The greater of two `PtrEq` values: the less certain one.
pub open spec fn eq_join(a: PtrEq, b: PtrEq) -> PtrEq {
    if eq_rank(b) > eq_rank(a) { b } else { a }
}

/// A field element ordered by its canonical integer representative.
#[derive(Clone, Copy, Debug, PartialEq, Eq, Structural, PartialOrd, Ord, Hash)]
pub struct LEWrap(pub Elt);

/// The position of an `LEWrap` in its order.
pub open spec fn le_rank(a: LEWrap) -> nat {
    a.0.0 as nat
}

pub open spec fn le_meet(a: LEWrap, b: LEWrap) -> LEWrap {
    if le_rank(b) < le_rank(a) { b } else { a }
}

pub open spec fn le_join(a: LEWrap, b: LEWrap) -> LEWrap {
    if le_rank(b) > le_rank(a) { b } else { a }
}

impl PtrEq {
    fn rank(&self) -> (r: u8)
        ensures
            r as nat == eq_rank(*self),
    {
        match self {
            PtrEq::Equal => 0,
            PtrEq::NotEqual => 1,
            PtrEq::Unknown => 2,
        }
    }

    pub fn meet(self, other: PtrEq) -> (r: PtrEq)
        ensures
            r == eq_meet(self, other),
    {
        if other.rank() < self.rank() { other } else { self }
    }

    pub fn join(self, other: PtrEq) -> (r: PtrEq)
        ensures
            r == eq_join(self, other),
    {
        if other.rank() > self.rank() { other } else { self }
    }

    /// Moves `self` down to `other` when `other` is smaller; reports whether it moved.
    pub fn meet_mut(&mut self, other: PtrEq) -> (changed: bool)
        ensures
            *final(self) == eq_meet(*old(self), other),
            changed == (eq_rank(other) < eq_rank(*old(self))),
            changed == (*final(self) != *old(self)),
    {
        let changed = other.rank() < self.rank();
        if changed {
            *self = other;
        }
        changed
    }

    /// Moves `self` up to `other` when `other` is greater; reports whether it moved.
    pub fn join_mut(&mut self, other: PtrEq) -> (changed: bool)
        ensures
            *final(self) == eq_join(*old(self), other),
            changed == (eq_rank(other) > eq_rank(*old(self))),
            changed == (*final(self) != *old(self)),
    {
        let changed = other.rank() > self.rank();
        if changed {
            *self = other;
        }
        changed
    }
}

impl LEWrap {
    pub fn meet(self, other: LEWrap) -> (r: LEWrap)
        ensures
            r == le_meet(self, other),
    {
        if other.0.0 < self.0.0 { other } else { self }
    }

    pub fn join(self, other: LEWrap) -> (r: LEWrap)
        ensures
            r == le_join(self, other),
    {
        if other.0.0 > self.0.0 { other } else { self }
    }

    /// The comparison of the canonical representatives.
    pub fn partial_cmp(&self, other: &LEWrap) -> (r: Option<core::cmp::Ordering>)
        ensures
            r == Some(if self.0.0 < other.0.0 {
                core::cmp::Ordering::Less
            } else if self.0.0 == other.0.0 {
                core::cmp::Ordering::Equal
            } else {
                core::cmp::Ordering::Greater
            }),
    {
        if self.0.0 < other.0.0 {
            Some(core::cmp::Ordering::Less)
        } else if self.0.0 == other.0.0 {
            Some(core::cmp::Ordering::Equal)
        } else {
            Some(core::cmp::Ordering::Greater)
        }
    }

    /// Moves `self` down to `other` when `other` is smaller; reports whether it moved.
    pub fn meet_mut(&mut self, other: LEWrap) -> (changed: bool)
        ensures
            *final(self) == le_meet(*old(self), other),
            changed == (le_rank(other) < le_rank(*old(self))),
            changed == (*final(self) != *old(self)),
    {
        let changed = other.0.0 < self.0.0;
        if changed {
            *self = other;
        }
        changed
    }

    /// Moves `self` up to `other` when `other` is greater; reports whether it moved.
    pub fn join_mut(&mut self, other: LEWrap) -> (changed: bool)
        ensures
            *final(self) == le_join(*old(self), other),
            changed == (le_rank(other) > le_rank(*old(self))),
            changed == (*final(self) != *old(self)),
    {
        let changed = other.0.0 > self.0.0;
        if changed {
            *self = other;
        }
        changed
    }
}

/// Meet and join on `PtrEq` are commutative, associative and idempotent, and bound
/// their arguments from below and above.
pub proof fn lemma_ptr_eq_lattice(a: PtrEq, b: PtrEq, c: PtrEq)
    ensures
        eq_meet(a, b) == eq_meet(b, a),
        eq_join(a, b) == eq_join(b, a),
        eq_meet(eq_meet(a, b), c) == eq_meet(a, eq_meet(b, c)),
        eq_join(eq_join(a, b), c) == eq_join(a, eq_join(b, c)),
        eq_meet(a, a) == a,
        eq_join(a, a) == a,
        eq_rank(eq_meet(a, b)) <= eq_rank(a),
        eq_rank(eq_meet(a, b)) <= eq_rank(b),
        eq_rank(eq_join(a, b)) >= eq_rank(a),
        eq_rank(eq_join(a, b)) >= eq_rank(b),
        eq_meet(a, eq_join(a, b)) == a,
        eq_join(a, eq_meet(a, b)) == a,
{
}

/// Meet and join on `LEWrap` are commutative, associative and idempotent, and bound
/// their arguments from below and above.
pub proof fn lemma_le_wrap_lattice(a: LEWrap, b: LEWrap, c: LEWrap)
    ensures
        le_meet(a, b) == le_meet(b, a),
        le_join(a, b) == le_join(b, a),
        le_meet(le_meet(a, b), c) == le_meet(a, le_meet(b, c)),
        le_join(le_join(a, b), c) == le_join(a, le_join(b, c)),
        le_meet(a, a) == a,
        le_join(a, a) == a,
        le_rank(le_meet(a, b)) <= le_rank(a),
        le_rank(le_meet(a, b)) <= le_rank(b),
        le_rank(le_join(a, b)) >= le_rank(a),
        le_rank(le_join(a, b)) >= le_rank(b),
        le_meet(a, le_join(a, b)) == a,
        le_join(a, le_meet(a, b)) == a,
{
}

/// The value reached by meeting `start` with each of `xs` in turn.
pub open spec fn eq_meet_all(start: PtrEq, xs: Seq<PtrEq>) -> PtrEq
    decreases xs.len(),
{
    if xs.len() == 0 { start } else { eq_meet_all(eq_meet(start, xs[0]), xs.drop_first()) }
}

/// How many of those meets changed the value.
pub open spec fn eq_meet_changes(start: PtrEq, xs: Seq<PtrEq>) -> nat
    decreases xs.len(),
{
    if xs.len() == 0 {
        0
    } else {
        (if eq_rank(xs[0]) < eq_rank(start) { 1nat } else { 0nat })
            + eq_meet_changes(eq_meet(start, xs[0]), xs.drop_first())
    }
}

pub open spec fn eq_join_all(start: PtrEq, xs: Seq<PtrEq>) -> PtrEq
    decreases xs.len(),
{
    if xs.len() == 0 { start } else { eq_join_all(eq_join(start, xs[0]), xs.drop_first()) }
}

pub open spec fn eq_join_changes(start: PtrEq, xs: Seq<PtrEq>) -> nat
    decreases xs.len(),
{
    if xs.len() == 0 {
        0
    } else {
        (if eq_rank(xs[0]) > eq_rank(start) { 1nat } else { 0nat })
            + eq_join_changes(eq_join(start, xs[0]), xs.drop_first())
    }
}

/// Repeated meets from any start change a `PtrEq` at most `rank(start)` times, and
/// repeated joins at most `2 - rank(start)` times: in any run the value takes at most
/// three distinct values, and once it has stopped moving the run has reached its
/// fixed point.
pub proof fn lemma_ptr_eq_converges(start: PtrEq, xs: Seq<PtrEq>)
    ensures
        eq_meet_changes(start, xs) <= eq_rank(start),
        eq_join_changes(start, xs) + eq_rank(start) <= 2,
        eq_rank(eq_meet_all(start, xs)) <= eq_rank(start),
        eq_rank(eq_join_all(start, xs)) >= eq_rank(start),
    decreases xs.len(),
{
    if xs.len() > 0 {
        lemma_ptr_eq_converges(eq_meet(start, xs[0]), xs.drop_first());
        lemma_ptr_eq_converges(eq_join(start, xs[0]), xs.drop_first());
    }
}

pub open spec fn le_meet_all(start: LEWrap, xs: Seq<LEWrap>) -> LEWrap
    decreases xs.len(),
{
    if xs.len() == 0 { start } else { le_meet_all(le_meet(start, xs[0]), xs.drop_first()) }
}

pub open spec fn le_meet_changes(start: LEWrap, xs: Seq<LEWrap>) -> nat
    decreases xs.len(),
{
    if xs.len() == 0 {
        0
    } else {
        (if le_rank(xs[0]) < le_rank(start) { 1nat } else { 0nat })
            + le_meet_changes(le_meet(start, xs[0]), xs.drop_first())
    }
}

pub open spec fn le_join_all(start: LEWrap, xs: Seq<LEWrap>) -> LEWrap
    decreases xs.len(),
{
    if xs.len() == 0 { start } else { le_join_all(le_join(start, xs[0]), xs.drop_first()) }
}

pub open spec fn le_join_changes(start: LEWrap, xs: Seq<LEWrap>) -> nat
    decreases xs.len(),
{
    if xs.len() == 0 {
        0
    } else {
        (if le_rank(xs[0]) > le_rank(start) { 1nat } else { 0nat })
            + le_join_changes(le_join(start, xs[0]), xs.drop_first())
    }
}

/// Over canonical elements, repeated meets change an `LEWrap` at most `rank(start)`
/// times and repeated joins at most `PRIME - 1 - rank(start)` times, so any run takes
/// at most as many distinct values as the field has elements.
pub proof fn lemma_le_wrap_converges(start: LEWrap, xs: Seq<LEWrap>)
    requires
        start.0.canonical(),
        forall|i: int| 0 <= i < xs.len() ==> (#[trigger] xs[i]).0.canonical(),
    ensures
        le_meet_changes(start, xs) <= le_rank(start),
        le_join_changes(start, xs) + le_rank(start) <= PRIME - 1,
        le_rank(le_meet_all(start, xs)) <= le_rank(start),
        le_rank(le_join_all(start, xs)) >= le_rank(start),
    decreases xs.len(),
{
    if xs.len() > 0 {
        assert(xs[0].0.canonical());
        let rest = xs.drop_first();
        assert forall|i: int| 0 <= i < rest.len() implies (#[trigger] rest[i]).0.canonical() by {
            assert(rest[i] == xs[i + 1]);
        }
        lemma_le_wrap_converges(le_meet(start, xs[0]), rest);
        lemma_le_wrap_converges(le_join(start, xs[0]), rest);
    }
}

} // verus!
