//! The split filter: decides, per request, which splits can still improve
//! the running top-K, and is updated as results arrive.
//!
//! The filter is chosen once from the request: with no explicit sort the
//! newest split identifiers are expected to rank highest; with a sort on the
//! timestamp field the split's own timestamp bounds rank it; the trace-id
//! aggregation behaves like a descending timestamp sort. Once the merger
//! holds a full top-K, its worst retained hit is fed back: a split that
//! cannot beat that hit is skipped.

use vstd::prelude::*;

use crate::lex::{lex_le, lemma_lex_le_total, str_lex_le};
use crate::request::{
    AggregationRequest, PartialHit, SearchRequest, SortOrder, SortValue, SplitIdAndFooterOffsets,
};
use crate::rewrite::NANOS_PER_SECOND;
use vstd::arithmetic::div_mod::{lemma_fundamental_div_mod, lemma_fundamental_div_mod_converse};

verus! {

/// Can a split still contribute a hit better than the worst retained one?
/// The payload, where present, is derived from the worst retained hit.
#[derive(Debug, PartialEq, Eq)]
pub enum CanSplitDoBetter {
    Uninformative,
    SplitIdHigher(Option<String>),
    SplitTimestampHigher(Option<i64>),
    SplitTimestampLower(Option<i64>),
    FindTraceIdsAggregation(Option<i64>),
}

/// The filter a request gives rise to, before any hit arrived.
pub open spec fn spec_from_request(
    request: SearchRequest,
    timestamp_field: Option<Seq<char>>,
) -> CanSplitDoBetter {
    if request.max_hits == 0 && (match (request.aggregation_request, timestamp_field) {
        (
            Some(AggregationRequest::FindTraceIdsAggregation { span_timestamp_field_name }),
            Some(f),
        ) => span_timestamp_field_name@ == f,
        _ => false,
    }) {
        CanSplitDoBetter::FindTraceIdsAggregation(None)
    } else if request.sort_fields@.len() == 0 {
        CanSplitDoBetter::SplitIdHigher(None)
    } else {
        match timestamp_field {
            Some(f) => if request.sort_fields@[0].field_name@ == f {
                if request.sort_fields@[0].sort_order == SortOrder::Desc {
                    CanSplitDoBetter::SplitTimestampHigher(None)
                } else {
                    CanSplitDoBetter::SplitTimestampLower(None)
                }
            } else {
                CanSplitDoBetter::Uninformative
            },
            None => CanSplitDoBetter::Uninformative,
        }
    }
}

/// Whether the filter still allows the split to contribute.
pub open spec fn spec_can_be_better(
    filter: CanSplitDoBetter,
    split: SplitIdAndFooterOffsets,
) -> bool {
    match filter {
        CanSplitDoBetter::SplitIdHigher(Some(split_id)) => lex_le(split_id@, split.split_id@),
        CanSplitDoBetter::SplitTimestampHigher(Some(timestamp)) => split.spec_timestamp_end()
            >= timestamp,
        CanSplitDoBetter::FindTraceIdsAggregation(Some(timestamp)) => split.spec_timestamp_end()
            >= timestamp,
        CanSplitDoBetter::SplitTimestampLower(Some(timestamp)) => split.spec_timestamp_start()
            <= timestamp,
        _ => true,
    }
}

/// The ceiling of `ns / 1e9`: the smallest second bound that still covers
/// the nanosecond value.
pub open spec fn spec_ceil_div_ns(ns: int) -> int {
    -((-ns) / (NANOS_PER_SECOND as int))
}

/// `ns / 1e9` rounded toward zero, as the original division operator rounds:
/// the floor for nonnegative values, the ceiling for negative ones.
pub open spec fn spec_trunc_div_ns(ns: int) -> int {
    if ns >= 0 {
        ns / (NANOS_PER_SECOND as int)
    } else {
        -((-ns) / (NANOS_PER_SECOND as int))
    }
}

/// The filter after recording a new worst-retained hit. A timestamp carried
/// as an `i64` sort value is in nanoseconds and is converted to seconds:
/// rounding up for the descending variants and toward zero for the ascending
/// one, so that no split that could still contribute is pruned.
pub open spec fn spec_record_new_worst_hit(
    filter: CanSplitDoBetter,
    hit: PartialHit,
) -> CanSplitDoBetter {
    match filter {
        CanSplitDoBetter::Uninformative => CanSplitDoBetter::Uninformative,
        CanSplitDoBetter::SplitIdHigher(_) => CanSplitDoBetter::SplitIdHigher(
            Some(hit.split_id),
        ),
        CanSplitDoBetter::SplitTimestampHigher(timestamp) => match hit.sort_value {
            Some(SortValue::I64(ns)) => CanSplitDoBetter::SplitTimestampHigher(
                Some(spec_ceil_div_ns(ns as int) as i64),
            ),
            _ => CanSplitDoBetter::SplitTimestampHigher(timestamp),
        },
        CanSplitDoBetter::FindTraceIdsAggregation(timestamp) => match hit.sort_value {
            Some(SortValue::I64(ns)) => CanSplitDoBetter::FindTraceIdsAggregation(
                Some(spec_ceil_div_ns(ns as int) as i64),
            ),
            _ => CanSplitDoBetter::FindTraceIdsAggregation(timestamp),
        },
        CanSplitDoBetter::SplitTimestampLower(timestamp) => match hit.sort_value {
            Some(SortValue::I64(ns)) => CanSplitDoBetter::SplitTimestampLower(
                Some(spec_trunc_div_ns(ns as int) as i64),
            ),
            _ => CanSplitDoBetter::SplitTimestampLower(timestamp),
        },
    }
}

proof fn lemma_ceil_div_ns_bounds(ns: int)
    requires
        i64::MIN <= ns <= i64::MAX,
    ensures
        -9_223_372_037 <= spec_ceil_div_ns(ns) <= 9_223_372_037,
        (spec_ceil_div_ns(ns) - 1) * NANOS_PER_SECOND < ns <= spec_ceil_div_ns(ns)
            * NANOS_PER_SECOND,
{
    let k = NANOS_PER_SECOND as int;
    lemma_fundamental_div_mod(-ns, k);
    let q = (-ns) / k;
    let r = (-ns) % k;
    assert(-ns == k * q + r);
    assert(0 <= r < k);
    assert(ns == (-q) * k - r) by (nonlinear_arith)
        requires
            -ns == k * q + r,
    ;
    assert((-q - 1) * k == (-q) * k - k) by (nonlinear_arith);
    assert(-9_223_372_037 <= -q <= 9_223_372_037) by {
        assert(k * q <= -ns + 0 && -ns <= k * q + k) by {
            assert(-ns == k * q + r && 0 <= r < k);
        }
        assert(q * k == k * q) by (nonlinear_arith);
        if q > 9_223_372_037 {
            assert(q * k >= 9_223_372_038 * k) by (nonlinear_arith)
                requires
                    q >= 9_223_372_038,
                    k == 1_000_000_000,
            ;
            assert(false);
        }
        if q < -9_223_372_037 {
            assert(q * k <= (-9_223_372_038) * k) by (nonlinear_arith)
                requires
                    q <= -9_223_372_038,
                    k == 1_000_000_000,
            ;
            assert(false);
        }
    }
}

proof fn lemma_trunc_div_ns_bounds(ns: int)
    requires
        i64::MIN <= ns <= i64::MAX,
    ensures
        -9_223_372_037 <= spec_trunc_div_ns(ns) <= 9_223_372_037,
        spec_trunc_div_ns(ns) * NANOS_PER_SECOND < ns + NANOS_PER_SECOND,
        ns < (spec_trunc_div_ns(ns) + 1) * NANOS_PER_SECOND,
        spec_trunc_div_ns(ns) >= ns / (NANOS_PER_SECOND as int),
{
    let k = NANOS_PER_SECOND as int;
    if ns >= 0 {
        lemma_fundamental_div_mod(ns, k);
        let q = ns / k;
        let r = ns % k;
        assert(ns == k * q + r && 0 <= r < k);
        assert((q + 1) * k == q * k + k) by (nonlinear_arith);
        assert(q * k == k * q) by (nonlinear_arith);
        assert(0 <= q <= 9_223_372_037) by {
            if q > 9_223_372_037 {
                assert(q * k >= 9_223_372_038 * k) by (nonlinear_arith)
                    requires
                        q >= 9_223_372_038,
                        k == 1_000_000_000,
                ;
                assert(false);
            }
            if q < 0 {
                assert(q * k <= -k) by (nonlinear_arith)
                    requires
                        q <= -1,
                        k == 1_000_000_000,
                ;
                assert(false);
            }
        }
    } else {
        lemma_ceil_div_ns_bounds(ns);
        assert(spec_trunc_div_ns(ns) == spec_ceil_div_ns(ns));
        lemma_fundamental_div_mod(ns, k);
        let q = ns / k;
        let r = ns % k;
        let c = spec_ceil_div_ns(ns);
        assert(ns == k * q + r && 0 <= r < k);
        assert((c - 1) * k < ns <= c * k);
        assert(c >= q) by {
            if c < q {
                assert(c * k <= (q - 1) * k) by (nonlinear_arith)
                    requires
                        c <= q - 1,
                        k > 0,
                ;
                assert((q - 1) * k == q * k - k) by (nonlinear_arith);
                assert(q * k == k * q) by (nonlinear_arith);
                assert(false);
            }
        }
        assert((c + 1) * k == c * k + k) by (nonlinear_arith);
    }
}

/// Executable ceiling division of a nanosecond count by one second.
fn div_ceil_nanos(ns: i64) -> (r: i64)
    ensures
        r as int == spec_ceil_div_ns(ns as int),
{
    proof {
        lemma_ceil_div_ns_bounds(ns as int);
    }
    let k: u64 = 1_000_000_000;
    if ns >= 0 {
        let n: u64 = ns as u64;
        let q: u64 = n / k;
        let rem: u64 = n % k;
        proof {
            let ki = NANOS_PER_SECOND as int;
            lemma_fundamental_div_mod(n as int, ki);
            assert(q as int == (n as int) / ki && rem as int == (n as int) % ki);
            assert(q <= n) by (nonlinear_arith)
                requires
                    n as int == ki * (q as int) + (rem as int),
                    rem >= 0,
                    q >= 0,
                    ki >= 1,
            ;
            if rem == 0 {
                lemma_fundamental_div_mod_converse(-(n as int), ki, -(q as int), 0);
                assert(spec_ceil_div_ns(ns as int) == q as int);
            } else {
                assert(-(n as int) == (-(q as int) - 1) * ki + (ki - rem as int))
                    by (nonlinear_arith)
                    requires
                        n as int == ki * (q as int) + (rem as int),
                ;
                lemma_fundamental_div_mod_converse(
                    -(n as int),
                    ki,
                    -(q as int) - 1,
                    ki - rem as int,
                );
                assert(spec_ceil_div_ns(ns as int) == q as int + 1);
            }
        }
        if rem > 0 {
            (q as i64) + 1
        } else {
            q as i64
        }
    } else {
        let wide: i128 = ns as i128;
        let neg: i128 = -wide;
        let n: u64 = neg as u64;
        let q: u64 = n / k;
        proof {
            let ki = NANOS_PER_SECOND as int;
            lemma_fundamental_div_mod(n as int, ki);
            assert(q as int == (n as int) / ki);
            assert(spec_ceil_div_ns(ns as int) == -(q as int));
        }
        -(q as i64)
    }
}

/// Executable division of a nanosecond count by one second, rounding toward
/// zero as the native division operator does.
fn div_trunc_nanos(ns: i64) -> (r: i64)
    ensures
        r as int == spec_trunc_div_ns(ns as int),
{
    proof {
        lemma_trunc_div_ns_bounds(ns as int);
    }
    let k: u64 = 1_000_000_000;
    if ns >= 0 {
        let n: u64 = ns as u64;
        let q: u64 = n / k;
        proof {
            let ki = NANOS_PER_SECOND as int;
            lemma_fundamental_div_mod(n as int, ki);
            assert(q <= n) by (nonlinear_arith)
                requires
                    n as int == ki * (q as int) + ((n as int) % ki),
                    (n as int) % ki >= 0,
                    q >= 0,
                    ki >= 1,
            ;
            assert(spec_trunc_div_ns(ns as int) == q as int);
        }
        q as i64
    } else {
        let wide: i128 = ns as i128;
        let neg: i128 = -wide;
        let n: u64 = neg as u64;
        let q: u64 = n / k;
        proof {
            let ki = NANOS_PER_SECOND as int;
            lemma_fundamental_div_mod(n as int, ki);
            assert(spec_trunc_div_ns(ns as int) == -(q as int));
        }
        -(q as i64)
    }
}

impl CanSplitDoBetter {
    /// Chooses the filter variant for a request.
    pub fn from_request(
        request: &SearchRequest,
        timestamp_field_name: Option<&String>,
    ) -> (r: CanSplitDoBetter)
        ensures
            r == spec_from_request(
                *request,
                match timestamp_field_name {
                    Some(f) => Some(f@),
                    None => None,
                },
            ),
    {
        if request.max_hits == 0 {
            let is_trace_agg = match (&request.aggregation_request, timestamp_field_name) {
                (
                    Some(AggregationRequest::FindTraceIdsAggregation { span_timestamp_field_name }),
                    Some(f),
                ) => span_timestamp_field_name.eq(f),
                _ => false,
            };
            if is_trace_agg {
                return CanSplitDoBetter::FindTraceIdsAggregation(None);
            }
        }
        if request.sort_fields.len() == 0 {
            CanSplitDoBetter::SplitIdHigher(None)
        } else {
            match timestamp_field_name {
                Some(timestamp_field) => {
                    let sort_by = &request.sort_fields[0];
                    if sort_by.field_name.eq(timestamp_field) {
                        if sort_by.sort_order == SortOrder::Desc {
                            CanSplitDoBetter::SplitTimestampHigher(None)
                        } else {
                            CanSplitDoBetter::SplitTimestampLower(None)
                        }
                    } else {
                        CanSplitDoBetter::Uninformative
                    }
                },
                None => CanSplitDoBetter::Uninformative,
            }
        }
    }

    /// Returns whether the given split can possibly hold documents better
    /// than the worst hit already retained.
    pub fn can_be_better(&self, split: &SplitIdAndFooterOffsets) -> (r: bool)
        ensures
            r == spec_can_be_better(*self, *split),
    {
        match self {
            CanSplitDoBetter::SplitIdHigher(Some(split_id)) => str_lex_le(
                split_id.as_str(),
                split.split_id.as_str(),
            ),
            CanSplitDoBetter::SplitTimestampHigher(Some(timestamp)) => split.timestamp_end()
                >= *timestamp,
            CanSplitDoBetter::FindTraceIdsAggregation(Some(timestamp)) => split.timestamp_end()
                >= *timestamp,
            CanSplitDoBetter::SplitTimestampLower(Some(timestamp)) => split.timestamp_start()
                <= *timestamp,
            _ => true,
        }
    }

    /// Records the new worst retained hit, the one a better hit would evict.
    /// Call only once the merger already holds a full top-K.
    pub fn record_new_worst_hit(&mut self, hit: &PartialHit)
        ensures
            *final(self) == spec_record_new_worst_hit(*old(self), *hit),
    {
        let sort_ns: Option<i64> = match hit.sort_value {
            Some(SortValue::I64(ns)) => Some(ns),
            _ => None,
        };
        let next: CanSplitDoBetter = match &*self {
            CanSplitDoBetter::Uninformative => CanSplitDoBetter::Uninformative,
            CanSplitDoBetter::SplitIdHigher(_) => CanSplitDoBetter::SplitIdHigher(
                Some(hit.split_id.clone()),
            ),
            CanSplitDoBetter::SplitTimestampHigher(timestamp) => match sort_ns {
                Some(ns) => CanSplitDoBetter::SplitTimestampHigher(Some(div_ceil_nanos(ns))),
                None => CanSplitDoBetter::SplitTimestampHigher(*timestamp),
            },
            CanSplitDoBetter::FindTraceIdsAggregation(timestamp) => match sort_ns {
                Some(ns) => CanSplitDoBetter::FindTraceIdsAggregation(Some(div_ceil_nanos(ns))),
                None => CanSplitDoBetter::FindTraceIdsAggregation(*timestamp),
            },
            CanSplitDoBetter::SplitTimestampLower(timestamp) => match sort_ns {
                Some(ns) => CanSplitDoBetter::SplitTimestampLower(Some(div_trunc_nanos(ns))),
                None => CanSplitDoBetter::SplitTimestampLower(*timestamp),
            },
        };
        *self = next;
    }
}

/// Rounding conservatism: the stored seconds bound for the descending
/// variants is the exact ceiling of the nanosecond value, and for the
/// ascending variant it is at least the floor.
pub proof fn lemma_rounding_conservatism(ns: int)
    requires
        i64::MIN <= ns <= i64::MAX,
    ensures
        spec_ceil_div_ns(ns) * NANOS_PER_SECOND >= ns,
        (spec_ceil_div_ns(ns) - 1) * NANOS_PER_SECOND < ns,
        spec_trunc_div_ns(ns) >= ns / (NANOS_PER_SECOND as int),
        ns < (spec_trunc_div_ns(ns) + 1) * NANOS_PER_SECOND,
{
    lemma_ceil_div_ns_bounds(ns);
    lemma_trunc_div_ns_bounds(ns);
}

/// Pruning safety for a descending timestamp sort: a split pruned against
/// the recorded bound cannot hold a nanosecond value strictly better
/// (larger) than the worst retained hit's value.
pub proof fn lemma_pruning_safe_timestamp_higher(
    split: SplitIdAndFooterOffsets,
    worst_ns: int,
    doc_ns: int,
)
    requires
        i64::MIN <= worst_ns <= i64::MAX,
        split.spec_timestamp_end() < spec_ceil_div_ns(worst_ns),
        doc_ns <= split.spec_timestamp_end() * NANOS_PER_SECOND,
    ensures
        doc_ns < worst_ns,
{
    let c = spec_ceil_div_ns(worst_ns);
    lemma_ceil_div_ns_bounds(worst_ns);
    assert(split.spec_timestamp_end() <= c - 1);
    assert(split.spec_timestamp_end() * NANOS_PER_SECOND <= (c - 1) * NANOS_PER_SECOND)
        by (nonlinear_arith)
        requires
            split.spec_timestamp_end() <= c - 1,
            NANOS_PER_SECOND > 0,
    ;
}

/// Pruning safety for an ascending timestamp sort: a split pruned against
/// the recorded bound cannot hold a nanosecond value strictly better
/// (smaller) than the worst retained hit's value.
pub proof fn lemma_pruning_safe_timestamp_lower(
    split: SplitIdAndFooterOffsets,
    worst_ns: int,
    doc_ns: int,
)
    requires
        i64::MIN <= worst_ns <= i64::MAX,
        split.spec_timestamp_start() > spec_trunc_div_ns(worst_ns),
        doc_ns >= split.spec_timestamp_start() * NANOS_PER_SECOND,
    ensures
        doc_ns > worst_ns,
{
    let t = spec_trunc_div_ns(worst_ns);
    lemma_trunc_div_ns_bounds(worst_ns);
    assert(split.spec_timestamp_start() >= t + 1);
    assert(split.spec_timestamp_start() * NANOS_PER_SECOND >= (t + 1) * NANOS_PER_SECOND)
        by (nonlinear_arith)
        requires
            split.spec_timestamp_start() >= t + 1,
            NANOS_PER_SECOND > 0,
    ;
}

/// Pruning safety for the split-id order: a hit from a split pruned against
/// the worst retained hit's split id is not strictly above that id.
pub proof fn lemma_pruning_safe_split_id(worst_id: Seq<char>, split_id: Seq<char>)
    requires
        !lex_le(worst_id, split_id),
    ensures
        lex_le(split_id, worst_id),
{
    lemma_lex_le_total(worst_id, split_id);
}

/// Pruning safety, stated against the merger's order: once the filter has
/// recorded the merger's worst retained hit, a split it then rejects cannot
/// contribute a hit that ranks strictly above that worst hit — no retained
/// element would have been displaced. A timestamp-sorted hit from the split
/// carries a nanosecond sort value within the split's own bounds; a
/// split-id-ranked hit carries the split's id.
pub proof fn lemma_pruning_safety(
    filter: CanSplitDoBetter,
    worst: PartialHit,
    split: SplitIdAndFooterOffsets,
    hit: PartialHit,
)
    requires
        !spec_can_be_better(spec_record_new_worst_hit(filter, worst), split),
        match filter {
            CanSplitDoBetter::SplitIdHigher(_) => hit.split_id@ == split.split_id@,
            CanSplitDoBetter::SplitTimestampHigher(_) => worst.sort_value matches Some(
                SortValue::I64(w),
            ) && (hit.sort_value matches Some(SortValue::I64(h)) && h <= split.spec_timestamp_end()
                * NANOS_PER_SECOND),
            CanSplitDoBetter::SplitTimestampLower(_) => worst.sort_value matches Some(
                SortValue::I64(w),
            ) && (hit.sort_value matches Some(SortValue::I64(h)) && h
                >= split.spec_timestamp_start() * NANOS_PER_SECOND),
            _ => false,
        },
    ensures
        match filter {
            CanSplitDoBetter::SplitIdHigher(_) => crate::merge::hit_le(
                crate::merge::HitOrdering::SplitIdDesc,
                hit,
                worst,
            ),
            CanSplitDoBetter::SplitTimestampHigher(_) => crate::merge::hit_le(
                crate::merge::HitOrdering::SortValueDesc,
                hit,
                worst,
            ),
            CanSplitDoBetter::SplitTimestampLower(_) => crate::merge::hit_le(
                crate::merge::HitOrdering::SortValueAsc,
                hit,
                worst,
            ),
            _ => true,
        },
{
    match filter {
        CanSplitDoBetter::SplitIdHigher(_) => {
            lemma_pruning_safe_split_id(worst.split_id@, split.split_id@);
        },
        CanSplitDoBetter::SplitTimestampHigher(_) => {
            let w = worst.sort_value->Some_0->I64_0;
            let h = hit.sort_value->Some_0->I64_0;
            lemma_ceil_div_ns_bounds(w as int);
            assert(spec_record_new_worst_hit(filter, worst)
                == CanSplitDoBetter::SplitTimestampHigher(
                Some(spec_ceil_div_ns(w as int) as i64),
            ));
            lemma_pruning_safe_timestamp_higher(split, w as int, h as int);
        },
        CanSplitDoBetter::SplitTimestampLower(_) => {
            let w = worst.sort_value->Some_0->I64_0;
            let h = hit.sort_value->Some_0->I64_0;
            lemma_trunc_div_ns_bounds(w as int);
            assert(spec_record_new_worst_hit(filter, worst)
                == CanSplitDoBetter::SplitTimestampLower(
                Some(spec_trunc_div_ns(w as int) as i64),
            ));
            lemma_pruning_safe_timestamp_lower(split, w as int, h as int);
        },
        _ => {},
    }
}

} // verus!
