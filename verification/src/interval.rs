use vstd::prelude::*;

verus! {

/// A closed interval of discrete time instants `[lower, upper]`.
#[derive(Clone, Copy, Debug, PartialEq, Eq, Structural, Hash)]
pub struct Interval {
    pub lower: i32,
    pub upper: i32,
}

/// `inner` lies entirely within `outer`.
pub open spec fn spec_contains(outer: Interval, inner: Interval) -> bool {
    outer.lower <= inner.lower && outer.upper >= inner.upper
}

/// The two intervals share at least one instant (as written, for any bounds).
pub open spec fn spec_intersects(a: Interval, b: Interval) -> bool {
    a.upper >= b.lower && b.upper >= a.lower
}

/// Instant `t` lies within the interval.
pub open spec fn spec_active(a: Interval, t: int) -> bool {
    a.lower <= t <= a.upper
}

/// One interval ends exactly one instant before the other starts.
pub open spec fn spec_contiguous(a: Interval, b: Interval) -> bool {
    a.upper + 1 == b.lower || b.upper + 1 == a.lower
}

pub open spec fn min_i32(a: i32, b: i32) -> i32 {
    if a <= b { a } else { b }
}

pub open spec fn max_i32(a: i32, b: i32) -> i32 {
    if a >= b { a } else { b }
}

/// The smallest interval covering both.
pub open spec fn spec_union(a: Interval, b: Interval) -> Interval {
    Interval { lower: min_i32(a.lower, b.lower), upper: max_i32(a.upper, b.upper) }
}

/// The overlap of both intervals (empty, `lower > upper`, when they do not meet).
pub open spec fn spec_intersection(a: Interval, b: Interval) -> Interval {
    Interval { lower: max_i32(a.lower, b.lower), upper: min_i32(a.upper, b.upper) }
}

/// No bound overflows when `time` is subtracted from it.
pub open spec fn shift_left_fits(a: Interval, time: int) -> bool {
    time > a.upper || (i32::MIN <= a.lower - time <= i32::MAX && i32::MIN <= a.upper - time
        <= i32::MAX)
}

/// The interval seen from instant `time`: bounds moved back by `time`, the lower one
/// clamped at 0; `None` when the interval ends before `time`.
pub open spec fn spec_shift_left(a: Interval, time: int) -> Option<Interval> {
    if time > a.upper {
        None
    } else {
        Some(
            Interval {
                lower: (if a.lower - time >= 0 { a.lower - time } else { 0 }) as i32,
                upper: (a.upper - time) as i32,
            },
        )
    }
}

/// No bound overflows when `time` is added to it.
pub open spec fn shift_right_fits(a: Interval, time: int) -> bool {
    i32::MIN <= a.lower + time <= i32::MAX && i32::MIN <= a.upper + time <= i32::MAX
}

/// Both bounds moved forward by `time`.
pub open spec fn spec_shift_right(a: Interval, time: int) -> Interval {
    Interval { lower: (a.lower + time) as i32, upper: (a.upper + time) as i32 }
}

impl Interval {
    pub fn contains(&self, other: &Interval) -> (r: bool)
        ensures
            r == spec_contains(*self, *other),
    {
        self.lower <= other.lower && self.upper >= other.upper
    }

    pub fn intersects(&self, other: &Interval) -> (r: bool)
        ensures
            r == spec_intersects(*self, *other),
    {
        self.upper >= other.lower && other.upper >= self.lower
    }

    pub fn active(&self, current_time: i32) -> (r: bool)
        ensures
            r == spec_active(*self, current_time as int),
    {
        current_time >= self.lower && current_time <= self.upper
    }

    pub fn contiguous(&self, other: &Interval) -> (r: bool)
        requires
            self.upper < i32::MAX,
            self.upper + 1 == other.lower || other.upper < i32::MAX,
        ensures
            r == spec_contiguous(*self, *other),
    {
        self.upper + 1 == other.lower || other.upper + 1 == self.lower
    }

    pub fn union(&self, other: &Interval) -> (r: Interval)
        ensures
            r == spec_union(*self, *other),
    {
        Interval {
            lower: if self.lower <= other.lower { self.lower } else { other.lower },
            upper: if self.upper >= other.upper { self.upper } else { other.upper },
        }
    }

    pub fn intersection(&self, other: &Interval) -> (r: Interval)
        ensures
            r == spec_intersection(*self, *other),
    {
        Interval {
            lower: if self.lower >= other.lower { self.lower } else { other.lower },
            upper: if self.upper <= other.upper { self.upper } else { other.upper },
        }
    }

    pub fn shift_left(&self, time: i32) -> (r: Option<Interval>)
        requires
            shift_left_fits(*self, time as int),
        ensures
            r == spec_shift_left(*self, time as int),
    {
        if time > self.upper {
            return None;
        }
        let l = self.lower - time;
        Some(Interval { lower: if l >= 0 { l } else { 0 }, upper: self.upper - time })
    }

    pub fn shift_right(&self, time: i32) -> (r: Interval)
        requires
            shift_right_fits(*self, time as int),
        ensures
            r == spec_shift_right(*self, time as int),
    {
        Interval { lower: self.lower + time, upper: self.upper + time }
    }
}

/// The union covers both of its operands.
pub proof fn lemma_union_contains_both(a: Interval, b: Interval)
    ensures
        spec_contains(spec_union(a, b), a),
        spec_contains(spec_union(a, b), b),
{
}

/// The intersection lies within both of its operands.
pub proof fn lemma_intersection_within_both(a: Interval, b: Interval)
    ensures
        spec_contains(a, spec_intersection(a, b)),
        spec_contains(b, spec_intersection(a, b)),
{
}

/// Intersection, contiguity and union do not depend on the order of the operands.
pub proof fn lemma_symmetric(a: Interval, b: Interval)
    ensures
        spec_intersects(a, b) == spec_intersects(b, a),
        spec_contiguous(a, b) == spec_contiguous(b, a),
        spec_union(a, b) == spec_union(b, a),
        spec_intersection(a, b) == spec_intersection(b, a),
{
}

/// Two non-empty intervals intersect exactly when some instant is active in both.
pub proof fn lemma_intersects_iff_common_instant(a: Interval, b: Interval)
    requires
        a.lower <= a.upper,
        b.lower <= b.upper,
    ensures
        spec_intersects(a, b) <==> exists|t: int| spec_active(a, t) && spec_active(b, t),
{
    if spec_intersects(a, b) {
        let t = max_i32(a.lower, b.lower) as int;
        assert(spec_active(a, t) && spec_active(b, t));
    }
}

/// An instant is active exactly when the one-instant interval at it is contained.
pub proof fn lemma_active_iff_contains_point(a: Interval, t: i32)
    ensures
        spec_active(a, t as int) == spec_contains(a, Interval { lower: t, upper: t }),
{
}

/// Shifting an interval of non-negative bounds forward and then back gives it back.
pub proof fn lemma_shift_round_trip(a: Interval, time: i32)
    requires
        0 <= a.lower,
        0 <= a.upper,
        shift_right_fits(a, time as int),
    ensures
        shift_left_fits(spec_shift_right(a, time as int), time as int),
        spec_shift_left(spec_shift_right(a, time as int), time as int) == Some(a),
{
}

/// Containment is transitive.
pub proof fn lemma_contains_transitive(a: Interval, b: Interval, c: Interval)
    requires
        spec_contains(a, b),
        spec_contains(b, c),
    ensures
        spec_contains(a, c),
{
}

/// Shifting forward keeps the width, moves every active instant by the same amount,
/// composes by adding the amounts, and shifting by 0 changes nothing.
pub proof fn lemma_shift_right_laws(a: Interval, x: i32, y: i32)
    requires
        shift_right_fits(a, x as int),
        shift_right_fits(a, x + y),
        shift_right_fits(spec_shift_right(a, x as int), y as int),
    ensures
        spec_shift_right(a, x as int).upper - spec_shift_right(a, x as int).lower == a.upper - a.lower,
        forall|t: int| spec_active(spec_shift_right(a, x as int), t + x) == #[trigger] spec_active(a, t),
        spec_shift_right(spec_shift_right(a, x as int), y as int) == spec_shift_right(a, x + y),
        spec_shift_right(a, 0) == a,
{
}

} // verus!
