//! The query abstract syntax tree, its document-matching semantics, and the
//! spec-level description of the timestamp-range rewrite.
//!
//! A query is a tree of nodes: `MatchAll`, `Term`, `Range` and `Bool`. A
//! `Bool` node holds four sequences of children: `must` and `filter` are
//! strictly positive positions (every child must match), `must_not` is
//! negative, and `should` is a disjunction that only constrains matching when
//! `must` and `filter` are both empty.
//!
//! Range values on the timestamp field are nanoseconds since the epoch; the
//! matching semantics reads a document as an assignment of a numeric value to
//! each field plus a set of (field, term) pairs.

use vstd::prelude::*;

use crate::bounds::{lower_bound_sat, spec_max_bound, spec_min_bound, upper_bound_sat, TimeBound};

verus! {

/// A query AST node. Range endpoints are interpreted numeric values; on the
/// timestamp field they are nanoseconds since the epoch.
#[derive(Debug, PartialEq, Eq)]
pub enum QueryAst {
    MatchAll,
    Term { field: String, value: String },
    Range { field: String, lower: TimeBound, upper: TimeBound },
    Bool {
        must: Vec<QueryAst>,
        should: Vec<QueryAst>,
        must_not: Vec<QueryAst>,
        filter: Vec<QueryAst>,
    },
}

/// The mathematical shape of a query AST node.
#[verifier::ext_equal]
pub enum AstV {
    MatchAll,
    Term { field: Seq<char>, value: Seq<char> },
    Range { field: Seq<char>, lower: TimeBound, upper: TimeBound },
    Bool { must: Seq<AstV>, should: Seq<AstV>, must_not: Seq<AstV>, filter: Seq<AstV> },
}

pub open spec fn view_ast(ast: QueryAst) -> AstV
    decreases ast,
{
    match ast {
        QueryAst::MatchAll => AstV::MatchAll,
        QueryAst::Term { field, value } => AstV::Term { field: field@, value: value@ },
        QueryAst::Range { field, lower, upper } => AstV::Range { field: field@, lower, upper },
        QueryAst::Bool { must, should, must_not, filter } => AstV::Bool {
            must: view_asts(must@),
            should: view_asts(should@),
            must_not: view_asts(must_not@),
            filter: view_asts(filter@),
        },
    }
}

pub open spec fn view_asts(asts: Seq<QueryAst>) -> Seq<AstV>
    decreases asts,
{
    if asts.len() == 0 {
        Seq::empty()
    } else {
        view_asts(asts.drop_last()).push(view_ast(asts.last()))
    }
}

impl View for QueryAst {
    type V = AstV;

    open spec fn view(&self) -> AstV {
        view_ast(*self)
    }
}

pub proof fn lemma_view_asts_len(asts: Seq<QueryAst>)
    ensures
        view_asts(asts).len() == asts.len(),
    decreases asts,
{
    if asts.len() > 0 {
        lemma_view_asts_len(asts.drop_last());
    }
}

pub proof fn lemma_view_asts_index(asts: Seq<QueryAst>, i: int)
    requires
        0 <= i < asts.len(),
    ensures
        view_asts(asts).len() == asts.len(),
        view_asts(asts)[i] == view_ast(asts[i]),
    decreases asts,
{
    lemma_view_asts_len(asts);
    if asts.len() > 0 && i < asts.len() - 1 {
        lemma_view_asts_index(asts.drop_last(), i);
    }
}

/// A document, as far as query matching is concerned: a numeric value for
/// each field (on the timestamp field, nanoseconds since the epoch) and the
/// set of (field, term) pairs the document contains.
pub struct Doc {
    pub values: Map<Seq<char>, int>,
    pub terms: Set<(Seq<char>, Seq<char>)>,
}

/// Does `doc` match the query `ast`?
///
/// `must`, `filter` and `must_not` constrain every document; `should` only
/// constrains matching when `must` and `filter` are both empty, in which case
/// at least one `should` child must match.
pub open spec fn sat(ast: AstV, doc: Doc) -> bool
    decreases ast, 1int,
{
    match ast {
        AstV::MatchAll => true,
        AstV::Term { field, value } => doc.terms.contains((field, value)),
        AstV::Range { field, lower, upper } => lower_bound_sat(lower, doc.values[field])
            && upper_bound_sat(upper, doc.values[field]),
        AstV::Bool { must, should, must_not, filter } => {
            &&& all_sat(must, doc)
            &&& all_sat(filter, doc)
            &&& none_sat(must_not, doc)
            &&& (must.len() + filter.len() > 0 || should.len() == 0 || any_sat(should, doc))
        },
    }
}

/// Every child in the sequence matches the document.
pub open spec fn all_sat(asts: Seq<AstV>, doc: Doc) -> bool
    decreases asts, 0int,
{
    forall|i: int| 0 <= i < asts.len() ==> sat(#[trigger] asts[i], doc)
}

/// No child in the sequence matches the document.
pub open spec fn none_sat(asts: Seq<AstV>, doc: Doc) -> bool
    decreases asts, 0int,
{
    forall|i: int| 0 <= i < asts.len() ==> !sat(#[trigger] asts[i], doc)
}

/// At least one child in the sequence matches the document.
pub open spec fn any_sat(asts: Seq<AstV>, doc: Doc) -> bool
    decreases asts, 0int,
{
    exists|i: int| 0 <= i < asts.len() && sat(#[trigger] asts[i], doc)
}

/// `ast` with every range on field `f` in a strictly positive position
/// replaced by `MatchAll`. Mirrors the traversal of the rewrite: it recurses
/// into `must` and `filter` children only.
pub open spec fn scrub(ast: AstV, f: Seq<char>) -> AstV
    decreases ast,
{
    match ast {
        AstV::Range { field, lower, upper } => if field == f {
            AstV::MatchAll
        } else {
            ast
        },
        AstV::Bool { must, should, must_not, filter } => AstV::Bool {
            must: scrub_seq(must, f),
            should,
            must_not,
            filter: scrub_seq(filter, f),
        },
        _ => ast,
    }
}

pub open spec fn scrub_seq(asts: Seq<AstV>, f: Seq<char>) -> Seq<AstV>
    decreases asts,
{
    if asts.len() == 0 {
        Seq::empty()
    } else {
        scrub_seq(asts.drop_last(), f).push(scrub(asts.last(), f))
    }
}

pub proof fn lemma_scrub_seq_index(asts: Seq<AstV>, f: Seq<char>, i: int)
    requires
        0 <= i < asts.len(),
    ensures
        scrub_seq(asts, f).len() == asts.len(),
        scrub_seq(asts, f)[i] == scrub(asts[i], f),
    decreases asts,
{
    lemma_scrub_seq_len(asts, f);
    if asts.len() > 0 && i < asts.len() - 1 {
        lemma_scrub_seq_index(asts.drop_last(), f, i);
    }
}

pub proof fn lemma_scrub_seq_len(asts: Seq<AstV>, f: Seq<char>)
    ensures
        scrub_seq(asts, f).len() == asts.len(),
    decreases asts,
{
    if asts.len() > 0 {
        lemma_scrub_seq_len(asts.drop_last(), f);
    }
}

/// The pair of accumulated endpoints after visiting `ast`: every range on
/// field `f` in a strictly positive position is intersected into `acc`
/// (tighter lower endpoint by `spec_max_bound`, tighter upper endpoint by
/// `spec_min_bound`), in traversal order (`must` children then `filter`
/// children, each left to right).
pub open spec fn fold_bounds(ast: AstV, f: Seq<char>, acc: (TimeBound, TimeBound)) -> (
    TimeBound,
    TimeBound,
)
    decreases ast,
{
    match ast {
        AstV::Range { field, lower, upper } => if field == f {
            (spec_max_bound(acc.0, lower), spec_min_bound(acc.1, upper))
        } else {
            acc
        },
        AstV::Bool { must, should, must_not, filter } => fold_bounds_seq(
            filter,
            f,
            fold_bounds_seq(must, f, acc),
        ),
        _ => acc,
    }
}

pub open spec fn fold_bounds_seq(asts: Seq<AstV>, f: Seq<char>, acc: (TimeBound, TimeBound)) -> (
    TimeBound,
    TimeBound,
)
    decreases asts,
{
    if asts.len() == 0 {
        acc
    } else {
        fold_bounds(asts.last(), f, fold_bounds_seq(asts.drop_last(), f, acc))
    }
}

/// Does both accumulated endpoints hold of the value `v`?
pub open spec fn acc_sat(acc: (TimeBound, TimeBound), v: int) -> bool {
    lower_bound_sat(acc.0, v) && upper_bound_sat(acc.1, v)
}

/// Soundness of the scrubbing pass: replacing the positive-position ranges on
/// `f` by `MatchAll` while intersecting them into the accumulator preserves,
/// for every document, the conjunction of the node and the accumulated
/// endpoints applied to the document's value for `f`.
pub proof fn lemma_scrub_sound(ast: AstV, f: Seq<char>, acc: (TimeBound, TimeBound), doc: Doc)
    ensures
        (sat(scrub(ast, f), doc) && acc_sat(fold_bounds(ast, f, acc), doc.values[f])) <==> (sat(
            ast,
            doc,
        ) && acc_sat(acc, doc.values[f])),
    decreases ast,
{
    let v = doc.values[f];
    match ast {
        AstV::Range { field, lower, upper } => {
            if field == f {
                crate::bounds::lemma_max_bound_sat(acc.0, lower, v);
                crate::bounds::lemma_min_bound_sat(acc.1, upper, v);
            }
        },
        AstV::Bool { must, should, must_not, filter } => {
            let acc1 = fold_bounds_seq(must, f, acc);
            lemma_scrub_sound_seq(must, f, acc, doc);
            lemma_scrub_sound_seq(filter, f, acc1, doc);
            lemma_scrub_seq_len(must, f);
            lemma_scrub_seq_len(filter, f);
            let must2 = scrub_seq(must, f);
            let filter2 = scrub_seq(filter, f);
            assert(scrub(ast, f) == AstV::Bool {
                must: must2,
                should,
                must_not,
                filter: filter2,
            });
            assert(fold_bounds(ast, f, acc) == fold_bounds_seq(filter, f, acc1));
        },
        _ => {},
    }
}

/// Does the AST contain, anywhere, a range on field `f`?
pub open spec fn has_ts_range(ast: AstV, f: Seq<char>) -> bool
    decreases ast, 1int,
{
    match ast {
        AstV::Range { field, lower, upper } => field == f,
        AstV::Bool { must, should, must_not, filter } => any_has_ts_range(must, f)
            || any_has_ts_range(should, f) || any_has_ts_range(must_not, f) || any_has_ts_range(
            filter,
            f,
        ),
        _ => false,
    }
}

pub open spec fn any_has_ts_range(asts: Seq<AstV>, f: Seq<char>) -> bool
    decreases asts, 0int,
{
    exists|i: int| 0 <= i < asts.len() && has_ts_range(#[trigger] asts[i], f)
}

/// Does the AST contain a range on field `f` in a position that is not
/// strictly positive, that is, somewhere below a `should` or `must_not`
/// child? The rewrite does not look into those positions.
pub open spec fn has_nonpositive_ts_range(ast: AstV, f: Seq<char>) -> bool
    decreases ast, 1int,
{
    match ast {
        AstV::Bool { must, should, must_not, filter } => any_has_ts_range(should, f)
            || any_has_ts_range(must_not, f) || any_has_nonpositive_ts_range(must, f)
            || any_has_nonpositive_ts_range(filter, f),
        _ => false,
    }
}

pub open spec fn any_has_nonpositive_ts_range(asts: Seq<AstV>, f: Seq<char>) -> bool
    decreases asts, 0int,
{
    exists|i: int| 0 <= i < asts.len() && has_nonpositive_ts_range(#[trigger] asts[i], f)
}

/// Scrubbing removes every range on `f` when none hides below a `should` or
/// `must_not` child.
pub proof fn lemma_scrub_removes_ts_ranges(ast: AstV, f: Seq<char>)
    requires
        !has_nonpositive_ts_range(ast, f),
    ensures
        !has_ts_range(scrub(ast, f), f),
    decreases ast,
{
    match ast {
        AstV::Bool { must, should, must_not, filter } => {
            lemma_scrub_seq_len(must, f);
            lemma_scrub_seq_len(filter, f);
            let m2 = scrub_seq(must, f);
            let f2 = scrub_seq(filter, f);
            assert forall|i: int| 0 <= i < m2.len() implies !has_ts_range(#[trigger] m2[i], f) by {
                lemma_scrub_seq_index(must, f, i);
                assert(!has_nonpositive_ts_range(must[i], f));
                lemma_scrub_removes_ts_ranges(must[i], f);
            }
            assert forall|i: int| 0 <= i < f2.len() implies !has_ts_range(#[trigger] f2[i], f) by {
                lemma_scrub_seq_index(filter, f, i);
                assert(!has_nonpositive_ts_range(filter[i], f));
                lemma_scrub_removes_ts_ranges(filter[i], f);
            }
            assert(scrub(ast, f) == AstV::Bool { must: m2, should, must_not, filter: f2 });
        },
        _ => {},
    }
}

pub proof fn lemma_all_sat_singleton(x: AstV, doc: Doc)
    ensures
        all_sat(seq![x], doc) <==> sat(x, doc),
{
    assert(seq![x][0] == x);
    if sat(x, doc) {
        assert forall|i: int| 0 <= i < seq![x].len() implies sat(#[trigger] seq![x][i], doc) by {
            assert(seq![x][i] == x);
        }
    }
}

pub proof fn lemma_all_sat_push(asts: Seq<AstV>, x: AstV, doc: Doc)
    ensures
        all_sat(asts.push(x), doc) <==> (all_sat(asts, doc) && sat(x, doc)),
{
    let s = asts.push(x);
    assert(s[asts.len() as int] == x);
    if all_sat(asts, doc) && sat(x, doc) {
        assert forall|i: int| 0 <= i < s.len() implies sat(#[trigger] s[i], doc) by {
            if i < asts.len() {
                assert(s[i] == asts[i]);
            } else {
                assert(s[i] == x);
            }
        }
    }
    if all_sat(s, doc) {
        assert forall|i: int| 0 <= i < asts.len() implies sat(#[trigger] asts[i], doc) by {
            assert(s[i] == asts[i]);
        }
    }
}

proof fn lemma_scrub_sound_seq(asts: Seq<AstV>, f: Seq<char>, acc: (TimeBound, TimeBound), doc: Doc)
    ensures
        (all_sat(scrub_seq(asts, f), doc) && acc_sat(fold_bounds_seq(asts, f, acc), doc.values[f]))
            <==> (all_sat(asts, doc) && acc_sat(acc, doc.values[f])),
    decreases asts,
{
    if asts.len() == 0 {
        assert(scrub_seq(asts, f) =~= Seq::empty());
    } else {
        let head = asts.drop_last();
        let x = asts.last();
        let acc1 = fold_bounds_seq(head, f, acc);
        lemma_scrub_sound_seq(head, f, acc, doc);
        lemma_scrub_sound(x, f, acc1, doc);
        lemma_scrub_seq_len(head, f);
        let s2 = scrub_seq(asts, f);
        assert(s2 == scrub_seq(head, f).push(scrub(x, f)));
        assert(all_sat(s2, doc) <==> (all_sat(scrub_seq(head, f), doc) && sat(scrub(x, f), doc)))
            by {
            assert(forall|i: int|
                0 <= i < head.len() ==> s2[i] == #[trigger] scrub_seq(head, f)[i]);
            assert(s2[asts.len() - 1] == scrub(x, f));
        }
        assert(all_sat(asts, doc) <==> (all_sat(head, doc) && sat(x, doc))) by {
            assert(forall|i: int| 0 <= i < head.len() ==> head[i] == #[trigger] asts[i]);
            assert(asts[asts.len() - 1] == x);
        }
    }
}

} // verus!
