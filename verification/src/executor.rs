//! Per-request decisions of the leaf executor: which splits to run, in what
//! shape, and how failures outside any split are recorded.
//!
//! The asynchronous driver around this logic acquires a permit per split,
//! spawns the per-split searches, and feeds their outcomes to the merger;
//! every decision it takes comes from here.

use vstd::prelude::*;

use crate::filter::{spec_can_be_better, spec_from_request, CanSplitDoBetter};
use crate::merge::{spec_hit_ordering_for_request, hit_ordering_for_request, HitOrdering};
use crate::request::{
    AggregationRequest, CountHits, SearchRequest, SortField, SplitIdAndFooterOffsets,
    SplitSearchError,
};
use crate::sort::splits_sorted;

verus! {

/// A task handed to the CPU pool panicked before it produced a result.
#[derive(Debug, Clone, Copy, PartialEq, Eq, Structural)]
pub struct Panicked;

impl Panicked {
    /// The rendering of this failure.
    pub fn message(&self) -> (s: String)
        ensures
            s@ == "scheduled task panicked"@,
    {
        String::from_str("scheduled task panicked")
    }
}

/// Must every split be visited even when it cannot improve the top-K? True
/// when an exact total count is wanted, or when an aggregation other than
/// the trace-id one must see every document.
pub open spec fn spec_run_all_splits(request: SearchRequest, filter: CanSplitDoBetter) -> bool {
    request.count_hits == CountHits::CountAll || (request.aggregation_request is Some && !(
    filter is FindTraceIdsAggregation))
}

pub fn run_all_splits(request: &SearchRequest, filter: &CanSplitDoBetter) -> (r: bool)
    ensures
        r == spec_run_all_splits(*request, *filter),
{
    request.count_hits == CountHits::CountAll || (request.aggregation_request.is_some()
        && !matches!(filter, CanSplitDoBetter::FindTraceIdsAggregation(_)))
}

/// What to do with one split, given the filter's current state.
#[derive(Debug, Clone, Copy, PartialEq, Eq, Structural)]
pub enum SplitDisposition {
    /// The split cannot improve the result and nothing else needs it.
    Skip,
    /// The split cannot improve the top-K but an aggregation or an exact
    /// count still needs its documents: search it with zero hits requested.
    AggregationOnly,
    /// The split may still improve the top-K: search it as requested.
    Process,
}

/// The decision taken for a split before it is searched.
pub open spec fn spec_split_disposition(
    filter: CanSplitDoBetter,
    split: SplitIdAndFooterOffsets,
    run_all: bool,
) -> SplitDisposition {
    if spec_can_be_better(filter, split) {
        SplitDisposition::Process
    } else if run_all {
        SplitDisposition::AggregationOnly
    } else {
        SplitDisposition::Skip
    }
}

pub fn split_disposition(
    filter: &CanSplitDoBetter,
    split: &SplitIdAndFooterOffsets,
    run_all: bool,
) -> (r: SplitDisposition)
    ensures
        r == spec_split_disposition(*filter, *split, run_all),
{
    if filter.can_be_better(split) {
        SplitDisposition::Process
    } else if run_all {
        SplitDisposition::AggregationOnly
    } else {
        SplitDisposition::Skip
    }
}

/// Strips a request down to aggregation-only work: no hits, no offset, no
/// sort. Used when a split is visited only for counting or aggregation.
pub fn degrade_request_for_aggregation(request: &mut SearchRequest)
    ensures
        final(request).max_hits == 0,
        final(request).start_offset == 0,
        final(request).sort_fields@ =~= Seq::<SortField>::empty(),
        final(request).query_ast == old(request).query_ast,
        final(request).start_timestamp == old(request).start_timestamp,
        final(request).end_timestamp == old(request).end_timestamp,
        final(request).aggregation_request == old(request).aggregation_request,
        final(request).count_hits == old(request).count_hits,
{
    request.max_hits = 0;
    request.start_offset = 0;
    request.sort_fields = Vec::new();
}

/// The failure recorded when a spawned per-split task is lost before it
/// could report which split it was working on: attributed to an unknown
/// split and retryable.
pub fn join_failure_error(message: String) -> (r: SplitSearchError)
    ensures
        r.split_id@ == "unknown"@,
        r.error == message,
        r.retryable_error,
{
    SplitSearchError { split_id: String::from_str("unknown"), error: message, retryable_error: true }
}

/// The synchronous head of a leaf search: choose the split filter, order the
/// splits so the most promising come first, and decide whether every split
/// must be visited. The driver then walks the splits in this order.
pub fn leaf_search_plan(
    request: &SearchRequest,
    splits: &mut Vec<SplitIdAndFooterOffsets>,
    timestamp_field_name: Option<&String>,
) -> (r: (CanSplitDoBetter, bool, HitOrdering))
    ensures
        r.0 == spec_from_request(
            *request,
            match timestamp_field_name {
                Some(f) => Some(f@),
                None => None,
            },
        ),
        r.1 == spec_run_all_splits(*request, r.0),
        r.2 == spec_hit_ordering_for_request(*request),
        final(splits)@.to_multiset() == old(splits)@.to_multiset(),
        splits_sorted(r.0, final(splits)@),
{
    let filter = CanSplitDoBetter::from_request(request, timestamp_field_name);
    filter.optimize_split_order(splits);
    let run_all = run_all_splits(request, &filter);
    let ordering = hit_ordering_for_request(request);
    (filter, run_all, ordering)
}

} // verus!
