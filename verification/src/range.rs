//! Byte ranges of source text and values tagged with them.

use std::cmp::Ordering;
use vstd::prelude::*;
use vstd::std_specs::cmp::PartialOrdSpecImpl;
use vstd::std_specs::convert::FromSpecImpl;
use vstd::std_specs::convert::IntoSpec;
use vstd::std_specs::ops::BitOrSpecImpl;

verus! {

/// A position in a source text: a zero-based byte offset.
pub type Pos = usize;

/// A half-open interval `[start, end)` of byte offsets into a source text.
///
/// The first field is the start, the second the end. Ranges are ordered by
/// start, then by end.
#[derive(Clone, Copy, Hash, Debug, PartialEq, Eq, Structural, Ord)]
pub struct Range(pub Pos, pub Pos);

impl Range {
    /// A range is well formed when it does not end before it starts.
    pub open spec fn wf(self) -> bool {
        self.0 <= self.1
    }

    /// The smallest range that covers both `self` and `other`.
    pub open spec fn spec_merge(self, other: Range) -> Range {
        Range(
            if self.0 <= other.0 { self.0 } else { other.0 },
            if self.1 >= other.1 { self.1 } else { other.1 },
        )
    }

    /// `self`, with its start moved back to `start` if that lies before it.
    pub open spec fn spec_extend_start(self, start: Pos) -> Range {
        Range(if self.0 <= start { self.0 } else { start }, self.1)
    }

    /// `self`, with its end moved forward to `end` if that lies after it.
    pub open spec fn spec_extend_end(self, end: Pos) -> Range {
        Range(self.0, if self.1 >= end { self.1 } else { end })
    }

    /// Whether `self` comes before `other` in the order on ranges.
    pub open spec fn precedes(self, other: Range) -> bool {
        self.0 < other.0 || (self.0 == other.0 && self.1 < other.1)
    }

    /// The union of two spans: from the lesser start to the greater end.
    #[verifier::when_used_as_spec(spec_merge)]
    pub fn merge(self, other: Self) -> (merged: Self)
        ensures
            merged == self.spec_merge(other),
            self.wf() && other.wf() ==> merged.wf(),
    {
        Range(
            if self.0 <= other.0 { self.0 } else { other.0 },
            if self.1 >= other.1 { self.1 } else { other.1 },
        )
    }

    /// Moves the start back to `start`; a later `start` leaves the range as
    /// it is.
    #[verifier::when_used_as_spec(spec_extend_start)]
    pub fn extend_start(self, start: Pos) -> (extended: Self)
        ensures
            extended == self.spec_extend_start(start),
            extended.0 <= self.0,
            extended.0 <= start,
            extended.1 == self.1,
            self.wf() ==> extended.wf(),
    {
        Range(if self.0 <= start { self.0 } else { start }, self.1)
    }

    /// Moves the end forward to `end`; an earlier `end` leaves the range as
    /// it is.
    #[verifier::when_used_as_spec(spec_extend_end)]
    pub fn extend_end(self, end: Pos) -> (extended: Self)
        ensures
            extended == self.spec_extend_end(end),
            extended.1 >= self.1,
            extended.1 >= end,
            extended.0 == self.0,
            self.wf() ==> extended.wf(),
    {
        Range(self.0, if self.1 >= end { self.1 } else { end })
    }

    /// Merging does not depend on the order of its operands.
    pub proof fn lemma_merge_commutative(a: Range, b: Range)
        ensures
            a.merge(b) == b.merge(a),
    {
    }

    /// Merging three ranges gives the same span however they are grouped.
    pub proof fn lemma_merge_associative(a: Range, b: Range, c: Range)
        ensures
            a.merge(b).merge(c) == a.merge(b.merge(c)),
    {
    }

    /// Merging a range with itself gives that range.
    pub proof fn lemma_merge_idempotent(a: Range)
        ensures
            a.merge(a) == a,
    {
    }

    /// The merged range covers both operands, and is the least range that
    /// does.
    pub proof fn lemma_merge_is_least_cover(a: Range, b: Range, c: Range)
        ensures
            a.merge(b).0 <= a.0 && a.1 <= a.merge(b).1,
            a.merge(b).0 <= b.0 && b.1 <= a.merge(b).1,
            c.0 <= a.0 && c.0 <= b.0 && a.1 <= c.1 && b.1 <= c.1 ==> c.0 <= a.merge(b).0
                && a.merge(b).1 <= c.1,
    {
    }

    /// Extending the start never moves it forward, and extending the end
    /// never moves it back; each leaves the other bound alone.
    pub proof fn lemma_extend_monotone(a: Range, at: Pos)
        ensures
            a.extend_start(at).0 <= a.0,
            a.extend_start(at).1 == a.1,
            a.extend_end(at).1 >= a.1,
            a.extend_end(at).0 == a.0,
    {
    }

    /// Extending by a position moves the bound exactly as merging with the
    /// empty range at that position would.
    pub proof fn lemma_extend_is_merge(a: Range, at: Pos)
        ensures
            a.extend_start(at).0 == a.merge(Range(at, at)).0,
            a.extend_end(at).1 == a.merge(Range(at, at)).1,
    {
    }

    /// The order on ranges is a strict total order: of two different ranges
    /// exactly one precedes the other, and the order is transitive.
    pub proof fn lemma_order_total(a: Range, b: Range, c: Range)
        ensures
            a.precedes(b) || b.precedes(a) || a == b,
            !(a.precedes(b) && b.precedes(a)),
            !a.precedes(a),
            a.precedes(b) && b.precedes(c) ==> a.precedes(c),
    {
    }
}

impl From<std::ops::Range<Pos>> for Range {
    fn from(range: std::ops::Range<Pos>) -> (converted: Self) {
        Range(range.start, range.end)
    }
}

impl FromSpecImpl<std::ops::Range<Pos>> for Range {
    open spec fn obeys_from_spec() -> bool {
        true
    }

    open spec fn from_spec(range: std::ops::Range<Pos>) -> Self {
        Range(range.start, range.end)
    }
}

impl std::ops::BitOr<Range> for Range {
    type Output = Range;

    fn bitor(self, rhs: Range) -> (merged: Range) {
        self.merge(rhs)
    }
}

impl BitOrSpecImpl<Range> for Range {
    open spec fn obeys_bitor_spec() -> bool {
        true
    }

    open spec fn bitor_req(self, rhs: Range) -> bool {
        true
    }

    open spec fn bitor_spec(self, rhs: Range) -> Range {
        self.spec_merge(rhs)
    }
}

impl PartialOrd for Range {
    fn partial_cmp(&self, other: &Self) -> (order: Option<Ordering>) {
        if self.0 < other.0 {
            Some(Ordering::Less)
        } else if self.0 > other.0 {
            Some(Ordering::Greater)
        } else if self.1 < other.1 {
            Some(Ordering::Less)
        } else if self.1 > other.1 {
            Some(Ordering::Greater)
        } else {
            Some(Ordering::Equal)
        }
    }
}

impl PartialOrdSpecImpl for Range {
    open spec fn obeys_partial_cmp_spec() -> bool {
        true
    }

    open spec fn partial_cmp_spec(&self, other: &Self) -> Option<Ordering> {
        if self.precedes(*other) {
            Some(Ordering::Less)
        } else if other.precedes(*self) {
            Some(Ordering::Greater)
        } else {
            Some(Ordering::Equal)
        }
    }
}

/// A value together with the range of source text it was read from.
#[derive(Hash, Debug, PartialEq, Eq)]
pub struct Located<T>(pub T, pub Range);

impl<T: Clone> Clone for Located<T> {
    /// A copy of the value, with the same range.
    fn clone(&self) -> (copy: Self)
        ensures
            call_ensures(T::clone, (&self.0,), copy.0),
            copy.1 == self.1,
    {
        Located(self.0.clone(), self.1)
    }
}

impl<T> Located<T> {
    /// Transforms the value and keeps the range.
    pub fn map<U, F: FnOnce(T) -> U>(self, f: F) -> (mapped: Located<U>)
        requires
            call_requires(f, (self.0,)),
        ensures
            call_ensures(f, (self.0,), mapped.0),
            mapped.1 == self.1,
    {
        Located(f(self.0), self.1)
    }
}

impl<T: View> View for Located<T> {
    type V = Located<T::V>;

    open spec fn view(&self) -> Located<T::V> {
        Located(self.0@, self.1)
    }
}

impl<T> std::ops::Deref for Located<T> {
    type Target = T;

    fn deref(&self) -> (inner: &T)
        ensures
            *inner == self.0,
    {
        &self.0
    }
}

impl<T> std::ops::DerefMut for Located<T> {
    fn deref_mut(&mut self) -> (inner: &mut T)
        ensures
            *inner == old(self).0,
            final(self).0 == *final(inner),
            final(self).1 == old(self).1,
    {
        &mut self.0
    }
}

/// Tagging a value with a range, after converting both.
pub trait IntoLocated<T>: Into<T> + Sized {
    fn into_located<R: Into<Range>>(self, range: R) -> (located: Located<T>)
        ensures
            R::obeys_into_spec() ==> located.1 == range.into_spec(),
    {
        Located(self.into(), range.into())
    }
}

impl<T> IntoLocated<T> for T {
    /// A value is tagged as it is.
    fn into_located<R: Into<Range>>(self, range: R) -> (located: Located<T>)
        ensures
            located.0 == self,
    {
        Located(self, range.into())
    }
}

} // verus!
