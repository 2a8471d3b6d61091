//! The per-split request rewrite.
//!
//! Two rewrites run before a split is searched. When no hits are requested
//! the sort order is dropped. When the split's timestamp bounds are known,
//! every timestamp range sitting in a strictly positive position of the query
//! is removed and intersected — together with the request-level time window —
//! into a single accumulated interval; the parts of that interval already
//! implied by the split's own bounds are dropped, and whatever survives is
//! appended as one range filter (in nanoseconds) at the top of the query.

use vstd::prelude::*;

use crate::bounds::{max_bound, min_bound, TimeBound};
use crate::query_ast::{
    fold_bounds, fold_bounds_seq, lemma_view_asts_index, lemma_view_asts_len, scrub, scrub_seq,
    view_ast, view_asts, AstV, QueryAst,
};
use crate::request::{SearchRequest, SortField, SplitIdAndFooterOffsets};

verus! {

/// Nanoseconds in one second: query range values are stored in nanoseconds,
/// while request and split bounds arrive in seconds.
pub const NANOS_PER_SECOND: i64 = 1_000_000_000;

/// Largest magnitude of a timestamp in seconds that still fits in an `i64`
/// once scaled to nanoseconds.
pub const MAX_TIMESTAMP_SECONDS: i64 = 9_223_372_036;

/// Is this optional seconds value small enough to scale to nanoseconds?
pub open spec fn ts_secs_ok(t: Option<i64>) -> bool {
    match t {
        Some(s) => -MAX_TIMESTAMP_SECONDS <= s <= MAX_TIMESTAMP_SECONDS,
        None => true,
    }
}

/// The number of nodes of an AST; the termination measure of the traversals.
pub open spec fn ast_size(ast: AstV) -> nat
    decreases ast, 1int,
{
    match ast {
        AstV::Bool { must, should, must_not, filter } => 1 + asts_size(must) + asts_size(should)
            + asts_size(must_not) + asts_size(filter),
        _ => 1,
    }
}

pub open spec fn asts_size(asts: Seq<AstV>) -> nat
    decreases asts, 0int,
{
    if asts.len() == 0 {
        0
    } else {
        asts_size(asts.drop_last()) + ast_size(asts.last())
    }
}

pub proof fn lemma_asts_size_index(asts: Seq<AstV>, i: int)
    requires
        0 <= i < asts.len(),
    ensures
        ast_size(asts[i]) <= asts_size(asts),
    decreases asts,
{
    if i < asts.len() - 1 {
        lemma_asts_size_index(asts.drop_last(), i);
    }
}

/// The request-level start of the time window (inclusive seconds) as a lower
/// endpoint in nanoseconds.
pub open spec fn request_lower(start_timestamp: Option<i64>) -> TimeBound {
    match start_timestamp {
        Some(s) => TimeBound::Included((s * NANOS_PER_SECOND) as i64),
        None => TimeBound::Unbounded,
    }
}

/// The request-level end of the time window (exclusive seconds) as an upper
/// endpoint in nanoseconds.
pub open spec fn request_upper(end_timestamp: Option<i64>) -> TimeBound {
    match end_timestamp {
        Some(e) => TimeBound::Excluded((e * NANOS_PER_SECOND) as i64),
        None => TimeBound::Unbounded,
    }
}

/// Drops a lower endpoint already implied by the split's own start bound
/// (inclusive seconds). An included endpoint is kept only strictly above the
/// split start; an excluded endpoint also when equal.
pub open spec fn drop_implied_lower(b: TimeBound, split_start: Option<i64>) -> TimeBound {
    match split_start {
        Some(s) => match b {
            TimeBound::Included(q) => if q > s * NANOS_PER_SECOND {
                b
            } else {
                TimeBound::Unbounded
            },
            TimeBound::Excluded(q) => if q >= s * NANOS_PER_SECOND {
                b
            } else {
                TimeBound::Unbounded
            },
            TimeBound::Unbounded => TimeBound::Unbounded,
        },
        None => b,
    }
}

/// Drops an upper endpoint already implied by the split's own end bound
/// (inclusive seconds); the mirror of `drop_implied_lower`.
pub open spec fn drop_implied_upper(b: TimeBound, split_end: Option<i64>) -> TimeBound {
    match split_end {
        Some(s) => match b {
            TimeBound::Included(q) => if q < s * NANOS_PER_SECOND {
                b
            } else {
                TimeBound::Unbounded
            },
            TimeBound::Excluded(q) => if q <= s * NANOS_PER_SECOND {
                b
            } else {
                TimeBound::Unbounded
            },
            TimeBound::Unbounded => TimeBound::Unbounded,
        },
        None => b,
    }
}

/// Appends the surviving accumulated range as a filter at the top of the
/// query. A top-level Bool whose only content is `should` children is
/// wrapped in a fresh Bool first, so the new filter does not turn the
/// disjunction into a requirement; any other Bool receives the range in its
/// `filter`; any other node is wrapped.
pub open spec fn attach_range(ast: AstV, f: Seq<char>, lo: TimeBound, hi: TimeBound) -> AstV {
    if lo == TimeBound::Unbounded && hi == TimeBound::Unbounded {
        ast
    } else {
        let range = AstV::Range { field: f, lower: lo, upper: hi };
        match ast {
            AstV::Bool { must, should, must_not, filter } => if must.len() == 0 && filter.len()
                == 0 && should.len() > 0 {
                AstV::Bool {
                    must: seq![ast],
                    should: Seq::empty(),
                    must_not: Seq::empty(),
                    filter: seq![range],
                }
            } else {
                AstV::Bool { must, should, must_not, filter: filter.push(range) }
            },
            _ => AstV::Bool {
                must: seq![ast],
                should: Seq::empty(),
                must_not: Seq::empty(),
                filter: seq![range],
            },
        }
    }
}

/// The whole timestamp-range rewrite of a query AST, as one function: scrub
/// the positive-position ranges on `f`, fold them into the request window,
/// drop what the split bounds imply, and attach what survives.
pub open spec fn rewrite_ast_spec(
    ast: AstV,
    f: Seq<char>,
    start_timestamp: Option<i64>,
    end_timestamp: Option<i64>,
    split: SplitIdAndFooterOffsets,
) -> AstV {
    let acc0 = (request_lower(start_timestamp), request_upper(end_timestamp));
    let acc1 = fold_bounds(ast, f, acc0);
    let lo = drop_implied_lower(acc1.0, split.timestamp_start);
    let hi = drop_implied_upper(acc1.1, split.timestamp_end);
    attach_range(scrub(ast, f), f, lo, hi)
}

proof fn lemma_view_asts_push(s: Seq<QueryAst>, x: QueryAst)
    ensures
        view_asts(s.push(x)) == view_asts(s).push(view_ast(x)),
{
    assert(s.push(x).drop_last() =~= s);
    assert(s.push(x).last() == x);
}

/// Removes every range on field `f` in a strictly positive position,
/// intersecting the removed endpoints into the running accumulator.
fn rewrite_visit(ast: QueryAst, f: &String, lo: TimeBound, hi: TimeBound) -> (r: (
    QueryAst,
    TimeBound,
    TimeBound,
))
    ensures
        view_ast(r.0) == scrub(view_ast(ast), f@),
        (r.1, r.2) == fold_bounds(view_ast(ast), f@, (lo, hi)),
    decreases ast_size(view_ast(ast)), 0int,
{
    let ghost a0 = view_ast(ast);
    match ast {
        QueryAst::MatchAll => (QueryAst::MatchAll, lo, hi),
        QueryAst::Term { field, value } => (QueryAst::Term { field, value }, lo, hi),
        QueryAst::Range { field, lower, upper } => {
            if field.eq(f) {
                (QueryAst::MatchAll, max_bound(lo, lower), min_bound(hi, upper))
            } else {
                (QueryAst::Range { field, lower, upper }, lo, hi)
            }
        },
        QueryAst::Bool { must, should, must_not, filter } => {
            proof {
                assert(a0 == AstV::Bool {
                    must: view_asts(must@),
                    should: view_asts(should@),
                    must_not: view_asts(must_not@),
                    filter: view_asts(filter@),
                });
            }
            let (new_must, lo1, hi1) = rewrite_children(must, f, lo, hi);
            let (new_filter, lo2, hi2) = rewrite_children(filter, f, lo1, hi1);
            let r0 = QueryAst::Bool {
                must: new_must,
                should,
                must_not,
                filter: new_filter,
            };
            proof {
                assert(view_ast(r0) =~= scrub(a0, f@));
            }
            (r0, lo2, hi2)
        },
    }
}

/// `rewrite_visit`, mapped over a sequence of children in order.
fn rewrite_children(children: Vec<QueryAst>, f: &String, lo: TimeBound, hi: TimeBound) -> (r: (
    Vec<QueryAst>,
    TimeBound,
    TimeBound,
))
    ensures
        view_asts(r.0@) == scrub_seq(view_asts(children@), f@),
        (r.1, r.2) == fold_bounds_seq(view_asts(children@), f@, (lo, hi)),
    decreases asts_size(view_asts(children@)), 1int,
{
    let ghost c0 = children@;
    let ghost cv = view_asts(c0);
    proof {
        lemma_view_asts_len(c0);
    }
    let mut children = children;
    if children.len() == 0 {
        proof {
            assert(cv =~= Seq::<AstV>::empty());
            assert(scrub_seq(cv, f@) =~= Seq::<AstV>::empty());
        }
        return (children, lo, hi);
    }
    let last = match children.pop() {
        Some(x) => x,
        None => {
            proof {
                assert(false);
            }
            QueryAst::MatchAll
        },
    };
    proof {
        assert(last == c0.last());
        assert(children@ =~= c0.drop_last());
        assert(cv == view_asts(c0.drop_last()).push(view_ast(c0.last())));
        assert(view_asts(children@) == cv.drop_last()) by {
            assert(cv.drop_last() =~= view_asts(c0.drop_last()));
        }
        lemma_view_asts_index(c0, c0.len() - 1);
        assert(view_ast(last) == cv.last());
        assert(asts_size(cv) == asts_size(cv.drop_last()) + ast_size(cv.last()));
        assert(ast_size(cv.last()) >= 1);
    }
    let (mut rest2, lo1, hi1) = rewrite_children(children, f, lo, hi);
    let (last2, lo2, hi2) = rewrite_visit(last, f, lo1, hi1);
    let ghost rest2_prev = rest2@;
    rest2.push(last2);
    proof {
        lemma_view_asts_push(rest2_prev, last2);
        assert(scrub_seq(cv, f@) == scrub_seq(cv.drop_last(), f@).push(scrub(cv.last(), f@)));
        assert(fold_bounds_seq(cv, f@, (lo, hi)) == fold_bounds(
            cv.last(),
            f@,
            fold_bounds_seq(cv.drop_last(), f@, (lo, hi)),
        ));
    }
    (rest2, lo2, hi2)
}

/// Drops the parts of the accumulated interval that the split's own bounds
/// already imply, and appends the rest as a single range filter; then clears
/// the request-level window (every constraint it carried is now in the AST).
///
/// The rewritten query selects, within the split, exactly the documents the
/// original query selected within the split and the request time window; see
/// `crate::soundness`.
pub fn remove_redundant_timestamp_range(
    search_request: &mut SearchRequest,
    split: &SplitIdAndFooterOffsets,
    timestamp_field: &String,
)
    requires
        ts_secs_ok(old(search_request).start_timestamp),
        ts_secs_ok(old(search_request).end_timestamp),
        ts_secs_ok(split.timestamp_start),
        ts_secs_ok(split.timestamp_end),
    ensures
        view_ast(final(search_request).query_ast) == rewrite_ast_spec(
            view_ast(old(search_request).query_ast),
            timestamp_field@,
            old(search_request).start_timestamp,
            old(search_request).end_timestamp,
            *split,
        ),
        final(search_request).start_timestamp == None::<i64>,
        final(search_request).end_timestamp == None::<i64>,
        final(search_request).max_hits == old(search_request).max_hits,
        final(search_request).start_offset == old(search_request).start_offset,
        final(search_request).sort_fields == old(search_request).sort_fields,
        final(search_request).aggregation_request == old(search_request).aggregation_request,
        final(search_request).count_hits == old(search_request).count_hits,
{
    let lo0 = match search_request.start_timestamp {
        Some(s) => TimeBound::Included(s * NANOS_PER_SECOND),
        None => TimeBound::Unbounded,
    };
    let hi0 = match search_request.end_timestamp {
        Some(e) => TimeBound::Excluded(e * NANOS_PER_SECOND),
        None => TimeBound::Unbounded,
    };
    let mut ast = QueryAst::MatchAll;
    core::mem::swap(&mut ast, &mut search_request.query_ast);
    let (scrubbed, lo1, hi1) = rewrite_visit(ast, timestamp_field, lo0, hi0);
    let lo = match (lo1, split.timestamp_start) {
        (TimeBound::Included(q), Some(s)) => if q > s * NANOS_PER_SECOND {
            TimeBound::Included(q)
        } else {
            TimeBound::Unbounded
        },
        (TimeBound::Excluded(q), Some(s)) => if q >= s * NANOS_PER_SECOND {
            TimeBound::Excluded(q)
        } else {
            TimeBound::Unbounded
        },
        (TimeBound::Unbounded, Some(_)) => TimeBound::Unbounded,
        (b, None) => b,
    };
    let hi = match (hi1, split.timestamp_end) {
        (TimeBound::Included(q), Some(s)) => if q < s * NANOS_PER_SECOND {
            TimeBound::Included(q)
        } else {
            TimeBound::Unbounded
        },
        (TimeBound::Excluded(q), Some(s)) => if q <= s * NANOS_PER_SECOND {
            TimeBound::Excluded(q)
        } else {
            TimeBound::Unbounded
        },
        (TimeBound::Unbounded, Some(_)) => TimeBound::Unbounded,
        (b, None) => b,
    };
    let new_ast = attach_range_exec(scrubbed, timestamp_field, lo, hi);
    search_request.query_ast = new_ast;
    search_request.start_timestamp = None;
    search_request.end_timestamp = None;
}

/// The executable form of `attach_range`.
fn attach_range_exec(ast: QueryAst, f: &String, lo: TimeBound, hi: TimeBound) -> (r: QueryAst)
    ensures
        view_ast(r) == attach_range(view_ast(ast), f@, lo, hi),
{
    let ghost a0 = view_ast(ast);
    if matches!(lo, TimeBound::Unbounded) && matches!(hi, TimeBound::Unbounded) {
        return ast;
    }
    let range = QueryAst::Range { field: f.clone(), lower: lo, upper: hi };
    let ghost range_v = view_ast(range);
    proof {
        assert(range_v == AstV::Range { field: f@, lower: lo, upper: hi });
    }
    match ast {
        QueryAst::Bool { must, should, must_not, filter } => {
            proof {
                lemma_view_asts_len(must@);
                lemma_view_asts_len(filter@);
                lemma_view_asts_len(should@);
            }
            if must.is_empty() && filter.is_empty() && !should.is_empty() {
                let ghost must_seq = must@;
                let ghost filter_seq = filter@;
                let inner = QueryAst::Bool { must, should, must_not, filter };
                proof {
                    assert(view_ast(inner) == a0);
                }
                let r0 = wrap_in_bool(inner, range);
                proof {
                    assert(view_asts(must_seq) =~= Seq::<AstV>::empty());
                    assert(view_asts(filter_seq) =~= Seq::<AstV>::empty());
                    assert(view_ast(r0) =~= attach_range(a0, f@, lo, hi));
                }
                r0
            } else {
                let mut filter = filter;
                let ghost filter_prev = filter@;
                filter.push(range);
                let r0 = QueryAst::Bool { must, should, must_not, filter };
                proof {
                    lemma_view_asts_push(filter_prev, range);
                    assert(view_ast(r0) =~= attach_range(a0, f@, lo, hi));
                }
                r0
            }
        },
        other => {
            proof {
                assert(view_ast(other) == a0);
                assert(!(a0 is Bool));
            }
            let r0 = wrap_in_bool(other, range);
            proof {
                assert(view_ast(r0) =~= attach_range(a0, f@, lo, hi));
            }
            r0
        },
    }
}

/// `Bool { must: [inner], filter: [range] }`, the enclosing node the rewrite
/// adds when the range cannot be pushed into an existing Bool.
fn wrap_in_bool(inner: QueryAst, range: QueryAst) -> (r: QueryAst)
    ensures
        view_ast(r) == (AstV::Bool {
            must: seq![view_ast(inner)],
            should: Seq::empty(),
            must_not: Seq::empty(),
            filter: seq![view_ast(range)],
        }),
{
    let ghost inner_v = view_ast(inner);
    let ghost range_v = view_ast(range);
    let mut must: Vec<QueryAst> = Vec::new();
    let ghost must_empty = must@;
    must.push(inner);
    let mut filter: Vec<QueryAst> = Vec::new();
    let ghost filter_empty = filter@;
    filter.push(range);
    let r0 = QueryAst::Bool { must, should: Vec::new(), must_not: Vec::new(), filter };
    proof {
        assert(view_asts(Seq::<QueryAst>::empty()) =~= Seq::<AstV>::empty());
        assert(must_empty =~= Seq::<QueryAst>::empty());
        assert(filter_empty =~= Seq::<QueryAst>::empty());
        lemma_view_asts_push(must_empty, inner);
        lemma_view_asts_push(filter_empty, range);
        assert(view_asts(must_empty.push(inner)) =~= seq![inner_v]);
        assert(view_asts(filter_empty.push(range)) =~= seq![range_v]);
        assert(view_ast(r0) =~= AstV::Bool {
            must: seq![inner_v],
            should: Seq::empty(),
            must_not: Seq::empty(),
            filter: seq![range_v],
        });
    }
    r0
}

/// The per-split request rewrite: drops the sort order when no hits are
/// wanted, and removes the redundant timestamp ranges when the timestamp
/// field is known.
pub fn rewrite_request(
    search_request: &mut SearchRequest,
    split: &SplitIdAndFooterOffsets,
    timestamp_field: Option<&String>,
)
    requires
        ts_secs_ok(old(search_request).start_timestamp),
        ts_secs_ok(old(search_request).end_timestamp),
        ts_secs_ok(split.timestamp_start),
        ts_secs_ok(split.timestamp_end),
    ensures
        final(search_request).sort_fields@ == if old(search_request).max_hits == 0 {
            Seq::<SortField>::empty()
        } else {
            old(search_request).sort_fields@
        },
        match timestamp_field {
            Some(f) => {
                &&& view_ast(final(search_request).query_ast) == rewrite_ast_spec(
                    view_ast(old(search_request).query_ast),
                    f@,
                    old(search_request).start_timestamp,
                    old(search_request).end_timestamp,
                    *split,
                )
                &&& final(search_request).start_timestamp == None::<i64>
                &&& final(search_request).end_timestamp == None::<i64>
            },
            None => {
                &&& final(search_request).query_ast == old(search_request).query_ast
                &&& final(search_request).start_timestamp == old(search_request).start_timestamp
                &&& final(search_request).end_timestamp == old(search_request).end_timestamp
            },
        },
        final(search_request).max_hits == old(search_request).max_hits,
        final(search_request).start_offset == old(search_request).start_offset,
        final(search_request).aggregation_request == old(search_request).aggregation_request,
        final(search_request).count_hits == old(search_request).count_hits,
{
    if search_request.max_hits == 0 {
        search_request.sort_fields = Vec::new();
    }
    if let Some(timestamp_field) = timestamp_field {
        remove_redundant_timestamp_range(search_request, split, timestamp_field);
    }
}

/// Clears the request-level time window where the split's own bounds make it
/// redundant: the start when it does not cut into the split, the end
/// likewise (the request end is exclusive, the split end inclusive).
pub fn rewrite_start_end_time_bounds(
    start_timestamp_opt: &mut Option<i64>,
    end_timestamp_opt: &mut Option<i64>,
    split: &SplitIdAndFooterOffsets,
)
    ensures
        *final(start_timestamp_opt) == match (*old(start_timestamp_opt), split.timestamp_start, split.timestamp_end) {
            (Some(start), Some(split_start), Some(_)) => if start <= split_start {
                None::<i64>
            } else {
                Some(start)
            },
            (s, _, _) => s,
        },
        *final(end_timestamp_opt) == match (*old(end_timestamp_opt), split.timestamp_start, split.timestamp_end) {
            (Some(end), Some(_), Some(split_end)) => if end > split_end {
                None::<i64>
            } else {
                Some(end)
            },
            (e, _, _) => e,
        },
{
    if let (Some(split_start), Some(split_end)) = (split.timestamp_start, split.timestamp_end) {
        if let Some(start_timestamp) = *start_timestamp_opt {
            if start_timestamp <= split_start {
                *start_timestamp_opt = None;
            }
        }
        if let Some(end_timestamp) = *end_timestamp_opt {
            if end_timestamp > split_end {
                *end_timestamp_opt = None;
            }
        }
    }
}

} // verus!
