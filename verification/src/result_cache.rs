//! The leaf result cache: memoizes a split's merged response, keyed by the
//! split id and the rewritten request.
//!
//! The rewrite normalizes the request first, so two requests that differ
//! only in constraints a split makes redundant share one entry. Responses
//! are immutable; entries only ever leave for capacity, oldest first.

use vstd::prelude::*;

use crate::query_ast::{lemma_view_asts_index, lemma_view_asts_len, view_ast, view_asts, QueryAst};
use crate::request::{AggregationRequest, LeafSearchResponse, SearchRequest};
use crate::rewrite::{ast_size, asts_size, lemma_asts_size_index};

verus! {

/// Do the two aggregation requests ask for the same thing?
pub open spec fn spec_agg_eq(a: AggregationRequest, b: AggregationRequest) -> bool {
    match (a, b) {
        (
            AggregationRequest::FindTraceIdsAggregation { span_timestamp_field_name: f1 },
            AggregationRequest::FindTraceIdsAggregation { span_timestamp_field_name: f2 },
        ) => f1@ == f2@,
        (
            AggregationRequest::Opaque { request: r1 },
            AggregationRequest::Opaque { request: r2 },
        ) => r1@ == r2@,
        _ => false,
    }
}

/// Are the two requests the same request, compared by value? This is the
/// equality the result cache keys on.
pub open spec fn spec_request_eq(a: SearchRequest, b: SearchRequest) -> bool {
    &&& view_ast(a.query_ast) == view_ast(b.query_ast)
    &&& a.max_hits == b.max_hits
    &&& a.start_offset == b.start_offset
    &&& a.sort_fields@.len() == b.sort_fields@.len()
    &&& (forall|i: int|
        0 <= i < a.sort_fields@.len() ==> ((#[trigger] a.sort_fields@[i]).field_name@ == (
        #[trigger] b.sort_fields@[i]).field_name@ && a.sort_fields@[i].sort_order
            == b.sort_fields@[i].sort_order))
    &&& a.start_timestamp == b.start_timestamp
    &&& a.end_timestamp == b.end_timestamp
    &&& (match (a.aggregation_request, b.aggregation_request) {
        (None, None) => true,
        (Some(x), Some(y)) => spec_agg_eq(x, y),
        _ => false,
    })
    &&& a.count_hits == b.count_hits
}

/// Structural equality of two query ASTs.
fn eq_ast(a: &QueryAst, b: &QueryAst) -> (r: bool)
    ensures
        r == (view_ast(*a) == view_ast(*b)),
    decreases ast_size(view_ast(*a)), 0int,
{
    match (a, b) {
        (QueryAst::MatchAll, QueryAst::MatchAll) => true,
        (
            QueryAst::Term { field: f1, value: v1 },
            QueryAst::Term { field: f2, value: v2 },
        ) => f1.eq(f2) && v1.eq(v2),
        (
            QueryAst::Range { field: f1, lower: l1, upper: u1 },
            QueryAst::Range { field: f2, lower: l2, upper: u2 },
        ) => f1.eq(f2) && *l1 == *l2 && *u1 == *u2,
        (
            QueryAst::Bool { must: m1, should: s1, must_not: n1, filter: g1 },
            QueryAst::Bool { must: m2, should: s2, must_not: n2, filter: g2 },
        ) => {
            proof {
                assert(view_ast(*a) == spec_bool_node(m1@, s1@, n1@, g1@));
                assert(view_ast(*b) == spec_bool_node(m2@, s2@, n2@, g2@));
            }
            eq_asts(m1, m2) && eq_asts(s1, s2) && eq_asts(n1, n2) && eq_asts(g1, g2)
        },
        _ => false,
    }
}

/// The view of a Bool node, named so the equality proofs can speak of it.
#[verifier::inline]
pub open spec fn spec_bool_node(
    must: Seq<QueryAst>,
    should: Seq<QueryAst>,
    must_not: Seq<QueryAst>,
    filter: Seq<QueryAst>,
) -> crate::query_ast::AstV {
    crate::query_ast::AstV::Bool {
        must: view_asts(must),
        should: view_asts(should),
        must_not: view_asts(must_not),
        filter: view_asts(filter),
    }
}

/// Structural equality of two child lists.
fn eq_asts(a: &Vec<QueryAst>, b: &Vec<QueryAst>) -> (r: bool)
    ensures
        r == (view_asts(a@) == view_asts(b@)),
    decreases asts_size(view_asts(a@)), 1int,
{
    proof {
        lemma_view_asts_len(a@);
        lemma_view_asts_len(b@);
    }
    if a.len() != b.len() {
        proof {
            assert(view_asts(a@).len() != view_asts(b@).len());
        }
        return false;
    }
    let mut i: usize = 0;
    while i < a.len()
        invariant
            a@.len() == b@.len(),
            i <= a@.len(),
            view_asts(a@).len() == a@.len(),
            view_asts(b@).len() == b@.len(),
            forall|j: int| 0 <= j < i ==> view_asts(a@)[j] == view_asts(b@)[j],
        decreases a@.len() - i,
    {
        proof {
            lemma_view_asts_index(a@, i as int);
            lemma_view_asts_index(b@, i as int);
            lemma_asts_size_index(view_asts(a@), i as int);
        }
        if !eq_ast(&a[i], &b[i]) {
            proof {
                assert(view_asts(a@)[i as int] != view_asts(b@)[i as int]);
            }
            return false;
        }
        i += 1;
    }
    proof {
        assert(view_asts(a@) =~= view_asts(b@));
    }
    true
}

/// Value equality of two requests, deciding `spec_request_eq`.
pub fn eq_request(a: &SearchRequest, b: &SearchRequest) -> (r: bool)
    ensures
        r == spec_request_eq(*a, *b),
{
    if !eq_ast(&a.query_ast, &b.query_ast) {
        return false;
    }
    if a.max_hits != b.max_hits || a.start_offset != b.start_offset {
        return false;
    }
    if a.sort_fields.len() != b.sort_fields.len() {
        return false;
    }
    let mut i: usize = 0;
    while i < a.sort_fields.len()
        invariant
            a.sort_fields@.len() == b.sort_fields@.len(),
            i <= a.sort_fields@.len(),
            forall|j: int|
                0 <= j < i ==> ((#[trigger] a.sort_fields@[j]).field_name@ == (
                #[trigger] b.sort_fields@[j]).field_name@ && a.sort_fields@[j].sort_order
                    == b.sort_fields@[j].sort_order),
        decreases a.sort_fields@.len() - i,
    {
        let sa = &a.sort_fields[i];
        let sb = &b.sort_fields[i];
        if !sa.field_name.eq(&sb.field_name) || sa.sort_order != sb.sort_order {
            return false;
        }
        i += 1;
    }
    let ts_eq = match (a.start_timestamp, b.start_timestamp) {
        (None, None) => true,
        (Some(x), Some(y)) => x == y,
        _ => false,
    };
    if !ts_eq {
        return false;
    }
    let te_eq = match (a.end_timestamp, b.end_timestamp) {
        (None, None) => true,
        (Some(x), Some(y)) => x == y,
        _ => false,
    };
    if !te_eq {
        return false;
    }
    let agg_eq = match (&a.aggregation_request, &b.aggregation_request) {
        (None, None) => true,
        (
            Some(AggregationRequest::FindTraceIdsAggregation { span_timestamp_field_name: f1 }),
            Some(AggregationRequest::FindTraceIdsAggregation { span_timestamp_field_name: f2 }),
        ) => f1.eq(f2),
        (
            Some(AggregationRequest::Opaque { request: r1 }),
            Some(AggregationRequest::Opaque { request: r2 }),
        ) => r1.eq(r2),
        _ => false,
    };
    if !agg_eq {
        return false;
    }
    a.count_hits == b.count_hits
}

/// What a lookup of `(split_id, request)` yields, newest entry first.
pub open spec fn spec_result_lookup(
    entries: Seq<(String, SearchRequest, LeafSearchResponse)>,
    split_id: Seq<char>,
    request: SearchRequest,
) -> Option<LeafSearchResponse>
    decreases entries.len(),
{
    if entries.len() == 0 {
        None
    } else if entries.last().0@ == split_id && spec_request_eq(entries.last().1, request) {
        Some(entries.last().2)
    } else {
        spec_result_lookup(entries.drop_last(), split_id, request)
    }
}

/// A count-bounded memo of per-split leaf responses, oldest entry evicted
/// first.
#[derive(Debug)]
pub struct LeafSearchCache {
    entries: Vec<(String, SearchRequest, LeafSearchResponse)>,
    capacity: usize,
}

impl LeafSearchCache {
    pub closed spec fn wf(&self) -> bool {
        self.entries@.len() <= self.capacity
    }

    pub closed spec fn spec_lookup(&self, split_id: Seq<char>, request: SearchRequest) -> Option<
        LeafSearchResponse,
    > {
        spec_result_lookup(self.entries@, split_id, request)
    }

    /// An empty cache that will hold at most `capacity` responses.
    pub fn new(capacity: usize) -> (r: LeafSearchCache)
        ensures
            r.wf(),
            forall|k: Seq<char>, q: SearchRequest|
                r.spec_lookup(k, q) == None::<LeafSearchResponse>,
    {
        LeafSearchCache { entries: Vec::new(), capacity }
    }

    /// Returns the memoized response for this split and rewritten request.
    pub fn get(&self, split_id: &String, request: &SearchRequest) -> (r: Option<
        &LeafSearchResponse,
    >)
        ensures
            match r {
                Some(resp) => self.spec_lookup(split_id@, *request) == Some(*resp),
                None => self.spec_lookup(split_id@, *request) == None::<LeafSearchResponse>,
            },
    {
        let ghost entries0 = self.entries@;
        proof {
            assert(entries0.take(entries0.len() as int) =~= entries0);
        }
        let mut i: usize = self.entries.len();
        while i > 0
            invariant
                i <= entries0.len(),
                entries0 == self.entries@,
                spec_result_lookup(entries0, split_id@, *request) == spec_result_lookup(
                    entries0.take(i as int),
                    split_id@,
                    *request,
                ),
            decreases i,
        {
            i = i - 1;
            let entry = &self.entries[i];
            if entry.0.eq(split_id) && eq_request(&entry.1, request) {
                proof {
                    assert(entries0.take(i + 1).last() == entries0[i as int]);
                }
                return Some(&self.entries[i].2);
            }
            proof {
                assert(entries0.take(i + 1).last() == entries0[i as int]);
                assert(entries0.take(i + 1).drop_last() =~= entries0.take(i as int));
            }
        }
        proof {
            assert(entries0.take(0) =~= Seq::<(String, SearchRequest, LeafSearchResponse)>::empty());
        }
        None
    }

    /// Memoizes a response. The entry is immediately retrievable; when the
    /// cache is full the oldest entry leaves. A cache built with no capacity
    /// stores nothing.
    pub fn put(&mut self, split_id: String, request: SearchRequest, response: LeafSearchResponse)
        requires
            old(self).wf(),
        ensures
            final(self).wf(),
            old(self).spec_capacity() > 0 ==> final(self).spec_lookup(split_id@, request)
                == Some(response),
    {
        if self.capacity == 0 {
            return ;
        }
        if self.entries.len() >= self.capacity {
            let _ = self.entries.remove(0);
        }
        let ghost before = self.entries@;
        let ghost stored = (split_id, request, response);
        self.entries.push((split_id, request, response));
        proof {
            assert(self.entries@.last() == stored);
        }
    }

    pub closed spec fn spec_capacity(&self) -> usize {
        self.capacity
    }
}

} // verus!
