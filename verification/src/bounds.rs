//! Interval endpoints over timestamps, and the arithmetic used to intersect
//! them.
//!
//! A `TimeBound` is one endpoint of a (possibly half-open) interval over
//! timestamps. Intersecting two lower bounds keeps the tighter (larger) one;
//! intersecting two upper bounds keeps the tighter (smaller) one. At equal
//! values an excluded endpoint is tighter than an included one.

use vstd::prelude::*;

verus! {

/// One endpoint of an interval over `i64` timestamp values.
#[derive(Clone, Copy, Debug, PartialEq, Eq, Structural)]
pub enum TimeBound {
    Unbounded,
    Included(i64),
    Excluded(i64),
}

/// Does `v` lie above the lower endpoint `b`?
pub open spec fn lower_bound_sat(b: TimeBound, v: int) -> bool {
    match b {
        TimeBound::Unbounded => true,
        TimeBound::Included(x) => v >= x,
        TimeBound::Excluded(x) => v > x,
    }
}

/// Does `v` lie below the upper endpoint `b`?
pub open spec fn upper_bound_sat(b: TimeBound, v: int) -> bool {
    match b {
        TimeBound::Unbounded => true,
        TimeBound::Included(x) => v <= x,
        TimeBound::Excluded(x) => v < x,
    }
}

/// The tighter of two lower endpoints: the one satisfied by fewer values.
pub open spec fn spec_max_bound(left: TimeBound, right: TimeBound) -> TimeBound {
    match (left, right) {
        (TimeBound::Unbounded, r) => r,
        (l, TimeBound::Unbounded) => l,
        (TimeBound::Included(l), TimeBound::Included(r)) => TimeBound::Included(
            if l >= r { l } else { r },
        ),
        (TimeBound::Excluded(l), TimeBound::Excluded(r)) => TimeBound::Excluded(
            if l >= r { l } else { r },
        ),
        (TimeBound::Excluded(e), TimeBound::Included(i)) => if i > e {
            TimeBound::Included(i)
        } else {
            TimeBound::Excluded(e)
        },
        (TimeBound::Included(i), TimeBound::Excluded(e)) => if i > e {
            TimeBound::Included(i)
        } else {
            TimeBound::Excluded(e)
        },
    }
}

/// The tighter of two upper endpoints: the one satisfied by fewer values.
pub open spec fn spec_min_bound(left: TimeBound, right: TimeBound) -> TimeBound {
    match (left, right) {
        (TimeBound::Unbounded, r) => r,
        (l, TimeBound::Unbounded) => l,
        (TimeBound::Included(l), TimeBound::Included(r)) => TimeBound::Included(
            if l <= r { l } else { r },
        ),
        (TimeBound::Excluded(l), TimeBound::Excluded(r)) => TimeBound::Excluded(
            if l <= r { l } else { r },
        ),
        (TimeBound::Excluded(e), TimeBound::Included(i)) => if i < e {
            TimeBound::Included(i)
        } else {
            TimeBound::Excluded(e)
        },
        (TimeBound::Included(i), TimeBound::Excluded(e)) => if i < e {
            TimeBound::Included(i)
        } else {
            TimeBound::Excluded(e)
        },
    }
}

/// Returns the tighter of `left` and `right` read as lower endpoints, so the
/// intersection of the two half-lines they describe.
pub fn max_bound(left: TimeBound, right: TimeBound) -> (r: TimeBound)
    ensures
        r == spec_max_bound(left, right),
{
    match (left, right) {
        (TimeBound::Unbounded, r) => r,
        (l, TimeBound::Unbounded) => l,
        (TimeBound::Included(l), TimeBound::Included(r)) => TimeBound::Included(
            if l >= r { l } else { r },
        ),
        (TimeBound::Excluded(l), TimeBound::Excluded(r)) => TimeBound::Excluded(
            if l >= r { l } else { r },
        ),
        (TimeBound::Excluded(e), TimeBound::Included(i)) => if i > e {
            TimeBound::Included(i)
        } else {
            TimeBound::Excluded(e)
        },
        (TimeBound::Included(i), TimeBound::Excluded(e)) => if i > e {
            TimeBound::Included(i)
        } else {
            TimeBound::Excluded(e)
        },
    }
}

/// Returns the tighter of `left` and `right` read as upper endpoints, so the
/// intersection of the two half-lines they describe.
pub fn min_bound(left: TimeBound, right: TimeBound) -> (r: TimeBound)
    ensures
        r == spec_min_bound(left, right),
{
    match (left, right) {
        (TimeBound::Unbounded, r) => r,
        (l, TimeBound::Unbounded) => l,
        (TimeBound::Included(l), TimeBound::Included(r)) => TimeBound::Included(
            if l <= r { l } else { r },
        ),
        (TimeBound::Excluded(l), TimeBound::Excluded(r)) => TimeBound::Excluded(
            if l <= r { l } else { r },
        ),
        (TimeBound::Excluded(e), TimeBound::Included(i)) => if i < e {
            TimeBound::Included(i)
        } else {
            TimeBound::Excluded(e)
        },
        (TimeBound::Included(i), TimeBound::Excluded(e)) => if i < e {
            TimeBound::Included(i)
        } else {
            TimeBound::Excluded(e)
        },
    }
}

/// Applies `f` to the endpoint's value, keeping its kind: an included
/// endpoint stays included, an excluded one excluded, and an unbounded one
/// is untouched.
pub fn map_bound<F: FnOnce(i64) -> i64>(bound: TimeBound, f: F) -> (r: TimeBound)
    requires
        forall|x: i64|
            (bound == TimeBound::Included(x) || bound == TimeBound::Excluded(x)) ==> f.requires(
                (x,),
            ),
    ensures
        match bound {
            TimeBound::Unbounded => r == TimeBound::Unbounded,
            TimeBound::Included(x) => r matches TimeBound::Included(y) && f.ensures((x,), y),
            TimeBound::Excluded(x) => r matches TimeBound::Excluded(y) && f.ensures((x,), y),
        },
{
    match bound {
        TimeBound::Unbounded => TimeBound::Unbounded,
        TimeBound::Included(x) => TimeBound::Included(f(x)),
        TimeBound::Excluded(x) => TimeBound::Excluded(f(x)),
    }
}

/// Intersecting lower endpoints is exact: a value satisfies the combined
/// endpoint exactly when it satisfies both inputs.
pub proof fn lemma_max_bound_sat(left: TimeBound, right: TimeBound, v: int)
    ensures
        lower_bound_sat(spec_max_bound(left, right), v) <==> (lower_bound_sat(left, v)
            && lower_bound_sat(right, v)),
{
}

/// Intersecting upper endpoints is exact: a value satisfies the combined
/// endpoint exactly when it satisfies both inputs.
pub proof fn lemma_min_bound_sat(left: TimeBound, right: TimeBound, v: int)
    ensures
        upper_bound_sat(spec_min_bound(left, right), v) <==> (upper_bound_sat(left, v)
            && upper_bound_sat(right, v)),
{
}

} // verus!
