//! The request and response data model: split descriptors, search requests,
//! partial hits and leaf responses.

use vstd::prelude::*;

use crate::query_ast::QueryAst;

verus! {

/// Identifies a split and the byte range of its footer inside the
/// `<split_id>.split` bundle file, plus the inclusive range of timestamp
/// seconds the split covers, when known.
#[derive(Debug, PartialEq, Eq)]
pub struct SplitIdAndFooterOffsets {
    pub split_id: String,
    pub split_footer_start: u64,
    pub split_footer_end: u64,
    pub timestamp_start: Option<i64>,
    pub timestamp_end: Option<i64>,
}

impl SplitIdAndFooterOffsets {
    /// A well-formed descriptor carries either both timestamp bounds or
    /// neither, and the bounds are ordered.
    pub open spec fn wf(&self) -> bool {
        match (self.timestamp_start, self.timestamp_end) {
            (Some(s), Some(e)) => s <= e,
            (None, None) => true,
            _ => false,
        }
    }

    /// The split's lowest covered timestamp second; unbounded when absent.
    pub fn timestamp_start(&self) -> (r: i64)
        ensures
            r == self.spec_timestamp_start(),
    {
        match self.timestamp_start {
            Some(t) => t,
            None => i64::MIN,
        }
    }

    /// The split's highest covered timestamp second; unbounded when absent.
    pub fn timestamp_end(&self) -> (r: i64)
        ensures
            r == self.spec_timestamp_end(),
    {
        match self.timestamp_end {
            Some(t) => t,
            None => i64::MAX,
        }
    }

    pub open spec fn spec_timestamp_start(&self) -> i64 {
        match self.timestamp_start {
            Some(t) => t,
            None => i64::MIN,
        }
    }

    pub open spec fn spec_timestamp_end(&self) -> i64 {
        match self.timestamp_end {
            Some(t) => t,
            None => i64::MAX,
        }
    }
}

#[derive(Debug, Clone, Copy, PartialEq, Eq, Structural)]
pub enum SortOrder {
    Asc,
    Desc,
}

/// One requested sort criterion.
#[derive(Debug, PartialEq, Eq)]
pub struct SortField {
    pub field_name: String,
    pub sort_order: SortOrder,
}

/// Whether the total hit count must be exact or may be a lower bound.
#[derive(Debug, Clone, Copy, PartialEq, Eq, Structural)]
pub enum CountHits {
    CountAll,
    Underestimate,
}

/// An aggregation request. The trace-id aggregation is the one the split
/// filter understands; every other aggregation is carried opaquely.
#[derive(Debug, PartialEq, Eq)]
pub enum AggregationRequest {
    FindTraceIdsAggregation { span_timestamp_field_name: String },
    Opaque { request: String },
}

/// A search request, as a leaf sees it. `start_timestamp` is inclusive and
/// `end_timestamp` exclusive, both in seconds.
#[derive(Debug, PartialEq, Eq)]
pub struct SearchRequest {
    pub query_ast: QueryAst,
    pub max_hits: u64,
    pub start_offset: u64,
    pub sort_fields: Vec<SortField>,
    pub start_timestamp: Option<i64>,
    pub end_timestamp: Option<i64>,
    pub aggregation_request: Option<AggregationRequest>,
    pub count_hits: CountHits,
}

/// The value a hit was sorted by. Timestamp sort values are nanoseconds.
#[derive(Debug, Clone, Copy, PartialEq, Eq, Structural)]
pub enum SortValue {
    U64(u64),
    I64(i64),
    Boolean(bool),
}

/// A candidate hit: enough to identify the document and rank it, nothing
/// more.
#[derive(Debug, PartialEq, Eq)]
pub struct PartialHit {
    pub split_id: String,
    pub segment_ord: u32,
    pub doc_id: u32,
    pub sort_value: Option<SortValue>,
}

/// A per-split failure, collected into the response rather than failing the
/// whole request.
#[derive(Debug, PartialEq, Eq)]
pub struct SplitSearchError {
    pub split_id: String,
    pub error: String,
    pub retryable_error: bool,
}

/// A merged leaf response: the candidate top-K hits, counts, carried
/// aggregation state and the per-split failures.
#[derive(Debug, PartialEq, Eq)]
pub struct LeafSearchResponse {
    pub num_hits: u64,
    pub partial_hits: Vec<PartialHit>,
    pub failed_splits: Vec<SplitSearchError>,
    pub num_attempted_splits: u64,
    pub num_successful_splits: u64,
    pub intermediate_aggregation_result: Option<String>,
}

} // verus!
