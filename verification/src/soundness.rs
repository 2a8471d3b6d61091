//! The laws of the timestamp-range rewrite: soundness, preservation of a
//! `should`-only query, and subsumption.

use vstd::prelude::*;

use crate::bounds::{lower_bound_sat, upper_bound_sat, TimeBound};
use crate::query_ast::{
    fold_bounds, fold_bounds_seq, has_nonpositive_ts_range, has_ts_range, lemma_all_sat_push,
    lemma_all_sat_singleton, lemma_scrub_removes_ts_ranges, lemma_scrub_seq_len,
    lemma_scrub_sound, sat, scrub, scrub_seq, AstV, Doc,
};
use crate::request::SplitIdAndFooterOffsets;
use crate::rewrite::{
    attach_range, drop_implied_lower, drop_implied_upper, request_lower, request_upper,
    rewrite_ast_spec, ts_secs_ok, MAX_TIMESTAMP_SECONDS, NANOS_PER_SECOND,
};

verus! {

/// Does the timestamp value `v` (nanoseconds) lie within the split's own
/// bounds (inclusive seconds, scaled)?
pub open spec fn in_split_bounds(split: SplitIdAndFooterOffsets, v: int) -> bool {
    &&& (match split.timestamp_start {
        Some(s) => v >= s * NANOS_PER_SECOND,
        None => true,
    })
    &&& (match split.timestamp_end {
        Some(e) => v <= e * NANOS_PER_SECOND,
        None => true,
    })
}

/// Does the timestamp value `v` (nanoseconds) lie within the request-level
/// time window (start inclusive, end exclusive, seconds)?
pub open spec fn in_request_window(
    start_timestamp: Option<i64>,
    end_timestamp: Option<i64>,
    v: int,
) -> bool {
    lower_bound_sat(request_lower(start_timestamp), v) && upper_bound_sat(
        request_upper(end_timestamp),
        v,
    )
}

proof fn lemma_drop_implied_lower_sat(b: TimeBound, split_start: Option<i64>, v: int)
    requires
        match split_start {
            Some(s) => v >= s * NANOS_PER_SECOND,
            None => true,
        },
    ensures
        lower_bound_sat(drop_implied_lower(b, split_start), v) <==> lower_bound_sat(b, v),
{
}

proof fn lemma_drop_implied_upper_sat(b: TimeBound, split_end: Option<i64>, v: int)
    requires
        match split_end {
            Some(e) => v <= e * NANOS_PER_SECOND,
            None => true,
        },
    ensures
        upper_bound_sat(drop_implied_upper(b, split_end), v) <==> upper_bound_sat(b, v),
{
}

proof fn lemma_attach_sat(ast: AstV, f: Seq<char>, lo: TimeBound, hi: TimeBound, doc: Doc)
    ensures
        sat(attach_range(ast, f, lo, hi), doc) <==> (sat(ast, doc) && lower_bound_sat(
            lo,
            doc.values[f],
        ) && upper_bound_sat(hi, doc.values[f])),
{
    if lo == TimeBound::Unbounded && hi == TimeBound::Unbounded {
    } else {
        let range = AstV::Range { field: f, lower: lo, upper: hi };
        assert(sat(range, doc) == (lower_bound_sat(lo, doc.values[f]) && upper_bound_sat(
            hi,
            doc.values[f],
        )));
        match ast {
            AstV::Bool { must, should, must_not, filter } => {
                if must.len() == 0 && filter.len() == 0 && should.len() > 0 {
                    lemma_all_sat_singleton(ast, doc);
                    lemma_all_sat_singleton(range, doc);
                } else {
                    lemma_all_sat_push(filter, range, doc);
                }
            },
            _ => {
                lemma_all_sat_singleton(ast, doc);
                lemma_all_sat_singleton(range, doc);
            },
        }
    }
}

/// Rewrite soundness: within the split's own timestamp bounds, the rewritten
/// query selects exactly the documents that the original query selected
/// within the request's time window. The request window can therefore be
/// cleared once the rewrite ran.
pub proof fn lemma_rewrite_sound(
    ast: AstV,
    f: Seq<char>,
    start_timestamp: Option<i64>,
    end_timestamp: Option<i64>,
    split: SplitIdAndFooterOffsets,
    doc: Doc,
)
    requires
        in_split_bounds(split, doc.values[f]),
    ensures
        sat(rewrite_ast_spec(ast, f, start_timestamp, end_timestamp, split), doc) <==> (sat(
            ast,
            doc,
        ) && in_request_window(start_timestamp, end_timestamp, doc.values[f])),
{
    let v = doc.values[f];
    let acc0 = (request_lower(start_timestamp), request_upper(end_timestamp));
    let acc1 = fold_bounds(ast, f, acc0);
    let lo = drop_implied_lower(acc1.0, split.timestamp_start);
    let hi = drop_implied_upper(acc1.1, split.timestamp_end);
    lemma_scrub_sound(ast, f, acc0, doc);
    lemma_drop_implied_lower_sat(acc1.0, split.timestamp_start, v);
    lemma_drop_implied_upper_sat(acc1.1, split.timestamp_end, v);
    lemma_attach_sat(scrub(ast, f), f, lo, hi, doc);
}

/// Does every range on `f` in a strictly positive position cover the whole
/// interval `[lo_v, hi_v]` (nanoseconds)?
pub open spec fn pos_ts_ranges_cover(ast: AstV, f: Seq<char>, lo_v: int, hi_v: int) -> bool
    decreases ast, 1int,
{
    match ast {
        AstV::Range { field, lower, upper } => field == f ==> (lower_bound_sat(lower, lo_v)
            && upper_bound_sat(upper, hi_v)),
        AstV::Bool { must, should, must_not, filter } => all_pos_ts_ranges_cover(must, f, lo_v, hi_v)
            && all_pos_ts_ranges_cover(filter, f, lo_v, hi_v),
        _ => true,
    }
}

pub open spec fn all_pos_ts_ranges_cover(asts: Seq<AstV>, f: Seq<char>, lo_v: int, hi_v: int) -> bool
    decreases asts, 0int,
{
    forall|i: int| 0 <= i < asts.len() ==> pos_ts_ranges_cover(#[trigger] asts[i], f, lo_v, hi_v)
}

proof fn lemma_fold_covers(ast: AstV, f: Seq<char>, acc: (TimeBound, TimeBound), lo_v: int, hi_v: int)
    requires
        pos_ts_ranges_cover(ast, f, lo_v, hi_v),
        lower_bound_sat(acc.0, lo_v),
        upper_bound_sat(acc.1, hi_v),
    ensures
        lower_bound_sat(fold_bounds(ast, f, acc).0, lo_v),
        upper_bound_sat(fold_bounds(ast, f, acc).1, hi_v),
    decreases ast, 1int,
{
    match ast {
        AstV::Range { field, lower, upper } => {
            if field == f {
                crate::bounds::lemma_max_bound_sat(acc.0, lower, lo_v);
                crate::bounds::lemma_min_bound_sat(acc.1, upper, hi_v);
            }
        },
        AstV::Bool { must, should, must_not, filter } => {
            let acc1 = fold_bounds_seq(must, f, acc);
            lemma_fold_covers_seq(must, f, acc, lo_v, hi_v);
            lemma_fold_covers_seq(filter, f, acc1, lo_v, hi_v);
        },
        _ => {},
    }
}

proof fn lemma_fold_covers_seq(
    asts: Seq<AstV>,
    f: Seq<char>,
    acc: (TimeBound, TimeBound),
    lo_v: int,
    hi_v: int,
)
    requires
        all_pos_ts_ranges_cover(asts, f, lo_v, hi_v),
        lower_bound_sat(acc.0, lo_v),
        upper_bound_sat(acc.1, hi_v),
    ensures
        lower_bound_sat(fold_bounds_seq(asts, f, acc).0, lo_v),
        upper_bound_sat(fold_bounds_seq(asts, f, acc).1, hi_v),
    decreases asts, 0int,
{
    if asts.len() > 0 {
        let head = asts.drop_last();
        assert forall|i: int|
            0 <= i < head.len() implies pos_ts_ranges_cover(#[trigger] head[i], f, lo_v, hi_v) by {
            assert(head[i] == asts[i]);
        }
        lemma_fold_covers_seq(head, f, acc, lo_v, hi_v);
        assert(pos_ts_ranges_cover(asts.last(), f, lo_v, hi_v));
        lemma_fold_covers(asts.last(), f, fold_bounds_seq(head, f, acc), lo_v, hi_v);
    }
}

/// Subsumption: when the split's bounds lie within the request's time window
/// and within every range on the timestamp field in a strictly positive
/// position — and no such range hides below a `should` or `must_not` child —
/// the rewrite emits no range at all, and the rewritten query holds no range
/// on the timestamp field.
pub proof fn lemma_subsumption(
    ast: AstV,
    f: Seq<char>,
    start_timestamp: Option<i64>,
    end_timestamp: Option<i64>,
    split: SplitIdAndFooterOffsets,
)
    requires
        ts_secs_ok(start_timestamp),
        ts_secs_ok(end_timestamp),
        split.timestamp_start matches Some(s) && ts_secs_ok(split.timestamp_start) && (
        match start_timestamp {
            Some(st) => st <= s,
            None => true,
        }) && pos_ts_ranges_cover(
            ast,
            f,
            s * NANOS_PER_SECOND,
            split.spec_timestamp_end() * NANOS_PER_SECOND,
        ),
        split.timestamp_end matches Some(e) && ts_secs_ok(split.timestamp_end) && (
        match end_timestamp {
            Some(en) => en > e,
            None => true,
        }),
        !has_nonpositive_ts_range(ast, f),
    ensures
        rewrite_ast_spec(ast, f, start_timestamp, end_timestamp, split) == scrub(ast, f),
        !has_ts_range(rewrite_ast_spec(ast, f, start_timestamp, end_timestamp, split), f),
{
    let s = split.timestamp_start->Some_0;
    let e = split.timestamp_end->Some_0;
    let lo_v = s * NANOS_PER_SECOND;
    let hi_v = e * NANOS_PER_SECOND;
    let acc0 = (request_lower(start_timestamp), request_upper(end_timestamp));
    assert(lower_bound_sat(acc0.0, lo_v)) by {
        match start_timestamp {
            Some(st) => {
                assert(st * NANOS_PER_SECOND <= s * NANOS_PER_SECOND && -MAX_TIMESTAMP_SECONDS
                    * NANOS_PER_SECOND <= st * NANOS_PER_SECOND <= MAX_TIMESTAMP_SECONDS
                    * NANOS_PER_SECOND) by (nonlinear_arith)
                    requires
                        st <= s,
                        -MAX_TIMESTAMP_SECONDS <= st <= MAX_TIMESTAMP_SECONDS,
                ;
            },
            None => {},
        }
    }
    assert(upper_bound_sat(acc0.1, hi_v)) by {
        match end_timestamp {
            Some(en) => {
                assert(e * NANOS_PER_SECOND < en * NANOS_PER_SECOND && -MAX_TIMESTAMP_SECONDS
                    * NANOS_PER_SECOND <= en * NANOS_PER_SECOND <= MAX_TIMESTAMP_SECONDS
                    * NANOS_PER_SECOND) by (nonlinear_arith)
                    requires
                        en > e,
                        -MAX_TIMESTAMP_SECONDS <= en <= MAX_TIMESTAMP_SECONDS,
                ;
            },
            None => {},
        }
    }
    lemma_fold_covers(ast, f, acc0, lo_v, hi_v);
    let acc1 = fold_bounds(ast, f, acc0);
    assert(drop_implied_lower(acc1.0, split.timestamp_start) == TimeBound::Unbounded);
    assert(drop_implied_upper(acc1.1, split.timestamp_end) == TimeBound::Unbounded);
    lemma_scrub_removes_ts_ranges(ast, f);
}

/// Preservation of a `should`-only query: when the original top-level node is
/// a Bool with `should` children and no `must` or `filter`, and a time bound
/// survives the rewrite, the result is a fresh Bool whose `must` holds the
/// original node unchanged and whose `filter` holds exactly the derived
/// range. The range is not pushed into the original node, where it would have
/// turned the disjunction into a requirement.
pub proof fn lemma_rewrite_keeps_should(
    ast: AstV,
    f: Seq<char>,
    start_timestamp: Option<i64>,
    end_timestamp: Option<i64>,
    split: SplitIdAndFooterOffsets,
)
    requires
        ast matches AstV::Bool { must, should, must_not, filter } && must.len() == 0
            && filter.len() == 0 && should.len() > 0,
    ensures
        ({
            let acc1 = fold_bounds(
                ast,
                f,
                (request_lower(start_timestamp), request_upper(end_timestamp)),
            );
            let lo = drop_implied_lower(acc1.0, split.timestamp_start);
            let hi = drop_implied_upper(acc1.1, split.timestamp_end);
            !(lo == TimeBound::Unbounded && hi == TimeBound::Unbounded)
                ==> rewrite_ast_spec(ast, f, start_timestamp, end_timestamp, split)
                == (AstV::Bool {
                must: seq![ast],
                should: Seq::empty(),
                must_not: Seq::empty(),
                filter: seq![AstV::Range { field: f, lower: lo, upper: hi }],
            })
        }),
{
    match ast {
        AstV::Bool { must, should, must_not, filter } => {
            assert(scrub_seq(must, f) =~= must) by {
                lemma_scrub_seq_len(must, f);
            }
            assert(scrub_seq(filter, f) =~= filter) by {
                lemma_scrub_seq_len(filter, f);
            }
            assert(scrub(ast, f) == ast);
        },
        _ => {},
    }
}

} // verus!
