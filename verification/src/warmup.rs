//! Warmup planning: the exact prefetch tasks a query needs before it can run
//! against a split without touching the store again.
//!
//! The planner turns a warmup descriptor and the split's segment count into
//! the list of fetches to issue: postings for listed terms and term ranges,
//! whole term dictionaries and full posting lists for listed fields, fast
//! field columns by name, and fieldnorms when scoring is required. The
//! driver issues them concurrently and awaits them all.

use vstd::prelude::*;

verus! {

/// One endpoint of a range of terms within a field.
#[derive(Debug, Clone, PartialEq, Eq)]
pub enum TermBound {
    Unbounded,
    Included(String),
    Excluded(String),
}

/// A range of terms to warm within one field, with an optional cap on how
/// many terms of the range are fetched.
#[derive(Debug, Clone, PartialEq, Eq)]
pub struct TermRange {
    pub start: TermBound,
    pub end: TermBound,
    pub limit: Option<u64>,
}

/// What a query needs resident before it can execute.
#[derive(Debug, PartialEq, Eq)]
pub struct WarmupInfo {
    /// Fields whose whole term dictionary must be loaded.
    pub term_dict_fields: Vec<u32>,
    /// Fields whose complete posting lists must be loaded.
    pub full_posting_fields: Vec<u32>,
    /// Per field, the terms to warm, each with its "positions needed" flag.
    pub terms_grouped_by_field: Vec<(u32, Vec<(String, bool)>)>,
    /// Per field, the term ranges to warm, each with its flag.
    pub term_ranges_grouped_by_field: Vec<(u32, Vec<(TermRange, bool)>)>,
    /// Fast field columns to load, by name.
    pub fast_field_names: Vec<String>,
    /// Must fieldnorms be resident (true exactly when scoring is required)?
    pub field_norms: bool,
}

/// One prefetch to issue against one segment of the split.
#[derive(Debug, Clone, PartialEq, Eq)]
pub enum WarmupTask {
    TermDict { segment: usize, field: u32 },
    FullPostings { segment: usize, field: u32 },
    Postings { segment: usize, field: u32, term: String, positions: bool },
    PostingsRange { segment: usize, field: u32, range: TermRange, positions: bool },
    FastField { segment: usize, name: String },
    FieldNorms { segment: usize, field: u32 },
}

/// The term dictionary tasks of one field, one per segment.
pub open spec fn dict_segs(field: u32, n_segments: nat) -> Seq<WarmupTask> {
    Seq::new(n_segments, |s: int| WarmupTask::TermDict { segment: s as usize, field })
}

/// The term dictionary tasks of all listed fields, in order.
pub open spec fn dict_tasks(fields: Seq<u32>, n_segments: nat) -> Seq<WarmupTask>
    decreases fields.len(),
{
    if fields.len() == 0 {
        Seq::empty()
    } else {
        dict_tasks(fields.drop_last(), n_segments) + dict_segs(fields.last(), n_segments)
    }
}

/// The full posting list tasks of all listed fields, in order.
pub open spec fn full_posting_segs(field: u32, n_segments: nat) -> Seq<WarmupTask> {
    Seq::new(n_segments, |s: int| WarmupTask::FullPostings { segment: s as usize, field })
}

pub open spec fn full_posting_tasks(fields: Seq<u32>, n_segments: nat) -> Seq<WarmupTask>
    decreases fields.len(),
{
    if fields.len() == 0 {
        Seq::empty()
    } else {
        full_posting_tasks(fields.drop_last(), n_segments) + full_posting_segs(
            fields.last(),
            n_segments,
        )
    }
}

/// The posting tasks of one term of one field, one per segment.
pub open spec fn term_segs(field: u32, term: (String, bool), n_segments: nat) -> Seq<WarmupTask> {
    Seq::new(
        n_segments,
        |s: int| WarmupTask::Postings {
            segment: s as usize,
            field,
            term: term.0,
            positions: term.1,
        },
    )
}

/// The posting tasks of one field's term list, in order.
pub open spec fn term_tasks_for_field(
    field: u32,
    terms: Seq<(String, bool)>,
    n_segments: nat,
) -> Seq<WarmupTask>
    decreases terms.len(),
{
    if terms.len() == 0 {
        Seq::empty()
    } else {
        term_tasks_for_field(field, terms.drop_last(), n_segments) + term_segs(
            field,
            terms.last(),
            n_segments,
        )
    }
}

/// The posting tasks of every field's term list, in order.
pub open spec fn term_tasks(
    groups: Seq<(u32, Vec<(String, bool)>)>,
    n_segments: nat,
) -> Seq<WarmupTask>
    decreases groups.len(),
{
    if groups.len() == 0 {
        Seq::empty()
    } else {
        term_tasks(groups.drop_last(), n_segments) + term_tasks_for_field(
            groups.last().0,
            groups.last().1@,
            n_segments,
        )
    }
}

/// The range tasks of one range of one field, one per segment.
pub open spec fn range_segs(field: u32, range: (TermRange, bool), n_segments: nat) -> Seq<
    WarmupTask,
> {
    Seq::new(
        n_segments,
        |s: int| WarmupTask::PostingsRange {
            segment: s as usize,
            field,
            range: range.0,
            positions: range.1,
        },
    )
}

/// The range tasks of one field's range list, in order.
pub open spec fn range_tasks_for_field(
    field: u32,
    ranges: Seq<(TermRange, bool)>,
    n_segments: nat,
) -> Seq<WarmupTask>
    decreases ranges.len(),
{
    if ranges.len() == 0 {
        Seq::empty()
    } else {
        range_tasks_for_field(field, ranges.drop_last(), n_segments) + range_segs(
            field,
            ranges.last(),
            n_segments,
        )
    }
}

/// The range tasks of every field's range list, in order.
pub open spec fn range_tasks(
    groups: Seq<(u32, Vec<(TermRange, bool)>)>,
    n_segments: nat,
) -> Seq<WarmupTask>
    decreases groups.len(),
{
    if groups.len() == 0 {
        Seq::empty()
    } else {
        range_tasks(groups.drop_last(), n_segments) + range_tasks_for_field(
            groups.last().0,
            groups.last().1@,
            n_segments,
        )
    }
}

/// The fast field tasks: every listed column crossed with every segment.
pub open spec fn fast_field_segs(name: String, n_segments: nat) -> Seq<WarmupTask> {
    Seq::new(n_segments, |s: int| WarmupTask::FastField { segment: s as usize, name })
}

pub open spec fn fast_field_tasks(names: Seq<String>, n_segments: nat) -> Seq<WarmupTask>
    decreases names.len(),
{
    if names.len() == 0 {
        Seq::empty()
    } else {
        fast_field_tasks(names.drop_last(), n_segments) + fast_field_segs(
            names.last(),
            n_segments,
        )
    }
}

/// The fieldnorm tasks: every schema field crossed with every segment, only
/// when scoring requires them.
pub open spec fn fieldnorm_segs(field: u32, n_segments: nat) -> Seq<WarmupTask> {
    Seq::new(n_segments, |s: int| WarmupTask::FieldNorms { segment: s as usize, field })
}

pub open spec fn fieldnorm_tasks(
    required: bool,
    schema_fields: Seq<u32>,
    n_segments: nat,
) -> Seq<WarmupTask>
    decreases schema_fields.len(),
{
    if !required || schema_fields.len() == 0 {
        Seq::empty()
    } else {
        fieldnorm_tasks(required, schema_fields.drop_last(), n_segments) + fieldnorm_segs(
            schema_fields.last(),
            n_segments,
        )
    }
}

/// Every prefetch the descriptor calls for, family by family: term postings,
/// term ranges, term dictionaries, full posting lists, fast field columns,
/// and fieldnorms when scoring is required.
pub open spec fn spec_warmup_tasks(
    info: WarmupInfo,
    schema_fields: Seq<u32>,
    n_segments: nat,
) -> Seq<WarmupTask> {
    term_tasks(info.terms_grouped_by_field@, n_segments) + range_tasks(
        info.term_ranges_grouped_by_field@,
        n_segments,
    ) + dict_tasks(info.term_dict_fields@, n_segments) + full_posting_tasks(
        info.full_posting_fields@,
        n_segments,
    ) + fast_field_tasks(info.fast_field_names@, n_segments) + fieldnorm_tasks(
        info.field_norms,
        schema_fields,
        n_segments,
    )
}

fn push_dict_segs(out: &mut Vec<WarmupTask>, field: u32, n_segments: usize)
    ensures
        final(out)@ == old(out)@ + dict_segs(field, n_segments as nat),
{
    let ghost start = out@;
    let mut s: usize = 0;
    while s < n_segments
        invariant
            s <= n_segments,
            out@ == start + dict_segs(field, n_segments as nat).take(s as int),
        decreases n_segments - s,
    {
        out.push(WarmupTask::TermDict { segment: s, field });
        proof {
            assert(dict_segs(field, n_segments as nat).take(s + 1) =~= dict_segs(
                field,
                n_segments as nat,
            ).take(s as int).push(WarmupTask::TermDict { segment: s, field }));
            assert(out@ =~= start + dict_segs(field, n_segments as nat).take(s + 1));
        }
        s += 1;
    }
    proof {
        assert(dict_segs(field, n_segments as nat).take(n_segments as int) =~= dict_segs(
            field,
            n_segments as nat,
        ));
    }
}

fn push_full_posting_segs(out: &mut Vec<WarmupTask>, field: u32, n_segments: usize)
    ensures
        final(out)@ == old(out)@ + full_posting_segs(field, n_segments as nat),
{
    let ghost start = out@;
    let mut s: usize = 0;
    while s < n_segments
        invariant
            s <= n_segments,
            out@ == start + full_posting_segs(field, n_segments as nat).take(s as int),
        decreases n_segments - s,
    {
        out.push(WarmupTask::FullPostings { segment: s, field });
        proof {
            assert(full_posting_segs(field, n_segments as nat).take(s + 1) =~= full_posting_segs(
                field,
                n_segments as nat,
            ).take(s as int).push(WarmupTask::FullPostings { segment: s, field }));
            assert(out@ =~= start + full_posting_segs(field, n_segments as nat).take(s + 1));
        }
        s += 1;
    }
    proof {
        assert(full_posting_segs(field, n_segments as nat).take(n_segments as int)
            =~= full_posting_segs(field, n_segments as nat));
    }
}

fn push_term_segs(out: &mut Vec<WarmupTask>, field: u32, term: &(String, bool), n_segments: usize)
    ensures
        final(out)@ == old(out)@ + term_segs(field, *term, n_segments as nat),
{
    let ghost start = out@;
    let mut s: usize = 0;
    while s < n_segments
        invariant
            s <= n_segments,
            out@ == start + term_segs(field, *term, n_segments as nat).take(s as int),
        decreases n_segments - s,
    {
        let task = WarmupTask::Postings {
            segment: s,
            field,
            term: term.0.clone(),
            positions: term.1,
        };
        proof {
            assert(task == term_segs(field, *term, n_segments as nat)[s as int]);
        }
        out.push(task);
        proof {
            assert(term_segs(field, *term, n_segments as nat).take(s + 1) =~= term_segs(
                field,
                *term,
                n_segments as nat,
            ).take(s as int).push(term_segs(field, *term, n_segments as nat)[s as int]));
            assert(out@ =~= start + term_segs(field, *term, n_segments as nat).take(s + 1));
        }
        s += 1;
    }
    proof {
        assert(term_segs(field, *term, n_segments as nat).take(n_segments as int) =~= term_segs(
            field,
            *term,
            n_segments as nat,
        ));
    }
}

fn push_range_segs(
    out: &mut Vec<WarmupTask>,
    field: u32,
    range: &(TermRange, bool),
    n_segments: usize,
)
    ensures
        final(out)@ == old(out)@ + range_segs(field, *range, n_segments as nat),
{
    let ghost start = out@;
    let mut s: usize = 0;
    while s < n_segments
        invariant
            s <= n_segments,
            out@ == start + range_segs(field, *range, n_segments as nat).take(s as int),
        decreases n_segments - s,
    {
        let task = WarmupTask::PostingsRange {
            segment: s,
            field,
            range: clone_term_range(&range.0),
            positions: range.1,
        };
        proof {
            assert(task == range_segs(field, *range, n_segments as nat)[s as int]);
        }
        out.push(task);
        proof {
            assert(range_segs(field, *range, n_segments as nat).take(s + 1) =~= range_segs(
                field,
                *range,
                n_segments as nat,
            ).take(s as int).push(range_segs(field, *range, n_segments as nat)[s as int]));
            assert(out@ =~= start + range_segs(field, *range, n_segments as nat).take(s + 1));
        }
        s += 1;
    }
    proof {
        assert(range_segs(field, *range, n_segments as nat).take(n_segments as int) =~= range_segs(
            field,
            *range,
            n_segments as nat,
        ));
    }
}

fn push_fast_field_segs(out: &mut Vec<WarmupTask>, name: &String, n_segments: usize)
    ensures
        final(out)@ == old(out)@ + fast_field_segs(*name, n_segments as nat),
{
    let ghost start = out@;
    let mut s: usize = 0;
    while s < n_segments
        invariant
            s <= n_segments,
            out@ == start + fast_field_segs(*name, n_segments as nat).take(s as int),
        decreases n_segments - s,
    {
        let task = WarmupTask::FastField { segment: s, name: name.clone() };
        proof {
            assert(task == fast_field_segs(*name, n_segments as nat)[s as int]);
        }
        out.push(task);
        proof {
            assert(fast_field_segs(*name, n_segments as nat).take(s + 1) =~= fast_field_segs(
                *name,
                n_segments as nat,
            ).take(s as int).push(fast_field_segs(*name, n_segments as nat)[s as int]));
            assert(out@ =~= start + fast_field_segs(*name, n_segments as nat).take(s + 1));
        }
        s += 1;
    }
    proof {
        assert(fast_field_segs(*name, n_segments as nat).take(n_segments as int)
            =~= fast_field_segs(*name, n_segments as nat));
    }
}

fn push_fieldnorm_segs(out: &mut Vec<WarmupTask>, field: u32, n_segments: usize)
    ensures
        final(out)@ == old(out)@ + fieldnorm_segs(field, n_segments as nat),
{
    let ghost start = out@;
    let mut s: usize = 0;
    while s < n_segments
        invariant
            s <= n_segments,
            out@ == start + fieldnorm_segs(field, n_segments as nat).take(s as int),
        decreases n_segments - s,
    {
        out.push(WarmupTask::FieldNorms { segment: s, field });
        proof {
            assert(fieldnorm_segs(field, n_segments as nat).take(s + 1) =~= fieldnorm_segs(
                field,
                n_segments as nat,
            ).take(s as int).push(WarmupTask::FieldNorms { segment: s, field }));
            assert(out@ =~= start + fieldnorm_segs(field, n_segments as nat).take(s + 1));
        }
        s += 1;
    }
    proof {
        assert(fieldnorm_segs(field, n_segments as nat).take(n_segments as int) =~= fieldnorm_segs(
            field,
            n_segments as nat,
        ));
    }
}

/// Cloning a term range keeps its value.
fn clone_term_range(range: &TermRange) -> (r: TermRange)
    ensures
        r == *range,
{
    TermRange {
        start: match &range.start {
            TermBound::Unbounded => TermBound::Unbounded,
            TermBound::Included(t) => TermBound::Included(t.clone()),
            TermBound::Excluded(t) => TermBound::Excluded(t.clone()),
        },
        end: match &range.end {
            TermBound::Unbounded => TermBound::Unbounded,
            TermBound::Included(t) => TermBound::Included(t.clone()),
            TermBound::Excluded(t) => TermBound::Excluded(t.clone()),
        },
        limit: range.limit,
    }
}

/// Plans the whole warmup: exactly the prefetch tasks the descriptor calls
/// for, over a split with `n_segments` segments and the given schema fields.
pub fn warmup_tasks(info: &WarmupInfo, schema_fields: &Vec<u32>, n_segments: usize) -> (r: Vec<
    WarmupTask,
>)
    ensures
        r@ == spec_warmup_tasks(*info, schema_fields@, n_segments as nat),
{
    let mut out: Vec<WarmupTask> = Vec::new();
    let ghost gterms = info.terms_grouped_by_field@;
    let mut gi: usize = 0;
    while gi < info.terms_grouped_by_field.len()
        invariant
            gi <= gterms.len(),
            gterms == info.terms_grouped_by_field@,
            out@ == term_tasks(gterms.take(gi as int), n_segments as nat),
        decreases gterms.len() - gi,
    {
        let group = &info.terms_grouped_by_field[gi];
        let field = group.0;
        let ghost terms = group.1@;
        let mut ti: usize = 0;
        while ti < group.1.len()
            invariant
                ti <= terms.len(),
                terms == group.1@,
                group == info.terms_grouped_by_field@[gi as int],
                gi < gterms.len(),
                gterms == info.terms_grouped_by_field@,
                field == group.0,
                out@ == term_tasks(gterms.take(gi as int), n_segments as nat)
                    + term_tasks_for_field(field, terms.take(ti as int), n_segments as nat),
            decreases terms.len() - ti,
        {
            push_term_segs(&mut out, field, &group.1[ti], n_segments);
            proof {
                assert(terms.take(ti + 1).drop_last() =~= terms.take(ti as int));
                assert(terms.take(ti + 1).last() == terms[ti as int]);
                assert(term_tasks_for_field(field, terms.take(ti + 1), n_segments as nat)
                    == term_tasks_for_field(field, terms.take(ti as int), n_segments as nat)
                    + term_segs(field, terms[ti as int], n_segments as nat));
                assert(out@ =~= term_tasks(gterms.take(gi as int), n_segments as nat)
                    + term_tasks_for_field(field, terms.take(ti + 1), n_segments as nat));
            }
            ti += 1;
        }
        proof {
            assert(terms.take(terms.len() as int) =~= terms);
            assert(gterms.take(gi + 1).drop_last() =~= gterms.take(gi as int));
            assert(gterms.take(gi + 1).last() == gterms[gi as int]);
            assert(term_tasks(gterms.take(gi + 1), n_segments as nat) == term_tasks(
                gterms.take(gi as int),
                n_segments as nat,
            ) + term_tasks_for_field(gterms[gi as int].0, gterms[gi as int].1@, n_segments as nat));
            assert(out@ =~= term_tasks(gterms.take(gi + 1), n_segments as nat));
        }
        gi += 1;
    }
    proof {
        assert(gterms.take(gterms.len() as int) =~= gterms);
    }
    let ghost after_terms = out@;
    let ghost granges = info.term_ranges_grouped_by_field@;
    let mut gi: usize = 0;
    while gi < info.term_ranges_grouped_by_field.len()
        invariant
            gi <= granges.len(),
            granges == info.term_ranges_grouped_by_field@,
            after_terms == term_tasks(info.terms_grouped_by_field@, n_segments as nat),
            out@ == after_terms + range_tasks(granges.take(gi as int), n_segments as nat),
        decreases granges.len() - gi,
    {
        let group = &info.term_ranges_grouped_by_field[gi];
        let field = group.0;
        let ghost ranges = group.1@;
        let mut ri: usize = 0;
        while ri < group.1.len()
            invariant
                ri <= ranges.len(),
                ranges == group.1@,
                group == info.term_ranges_grouped_by_field@[gi as int],
                gi < granges.len(),
                granges == info.term_ranges_grouped_by_field@,
                field == group.0,
                after_terms == term_tasks(info.terms_grouped_by_field@, n_segments as nat),
                out@ == after_terms + range_tasks(granges.take(gi as int), n_segments as nat)
                    + range_tasks_for_field(field, ranges.take(ri as int), n_segments as nat),
            decreases ranges.len() - ri,
        {
            push_range_segs(&mut out, field, &group.1[ri], n_segments);
            proof {
                assert(ranges.take(ri + 1).drop_last() =~= ranges.take(ri as int));
                assert(ranges.take(ri + 1).last() == ranges[ri as int]);
                assert(range_tasks_for_field(field, ranges.take(ri + 1), n_segments as nat)
                    == range_tasks_for_field(field, ranges.take(ri as int), n_segments as nat)
                    + range_segs(field, ranges[ri as int], n_segments as nat));
                assert(out@ =~= after_terms + range_tasks(granges.take(gi as int), n_segments as nat)
                    + range_tasks_for_field(field, ranges.take(ri + 1), n_segments as nat));
            }
            ri += 1;
        }
        proof {
            assert(ranges.take(ranges.len() as int) =~= ranges);
            assert(granges.take(gi + 1).drop_last() =~= granges.take(gi as int));
            assert(granges.take(gi + 1).last() == granges[gi as int]);
            assert(range_tasks(granges.take(gi + 1), n_segments as nat) == range_tasks(
                granges.take(gi as int),
                n_segments as nat,
            ) + range_tasks_for_field(
                granges[gi as int].0,
                granges[gi as int].1@,
                n_segments as nat,
            ));
            assert(out@ =~= after_terms + range_tasks(granges.take(gi + 1), n_segments as nat));
        }
        gi += 1;
    }
    proof {
        assert(granges.take(granges.len() as int) =~= granges);
    }
    let ghost after_ranges = out@;
    let ghost dfields = info.term_dict_fields@;
    let mut i: usize = 0;
    while i < info.term_dict_fields.len()
        invariant
            i <= dfields.len(),
            dfields == info.term_dict_fields@,
            out@ == after_ranges + dict_tasks(dfields.take(i as int), n_segments as nat),
        decreases dfields.len() - i,
    {
        push_dict_segs(&mut out, info.term_dict_fields[i], n_segments);
        proof {
            assert(dfields.take(i + 1).drop_last() =~= dfields.take(i as int));
            assert(dfields.take(i + 1).last() == dfields[i as int]);
            assert(out@ =~= after_ranges + dict_tasks(dfields.take(i + 1), n_segments as nat));
        }
        i += 1;
    }
    proof {
        assert(dfields.take(dfields.len() as int) =~= dfields);
    }
    let ghost after_dicts = out@;
    let ghost pfields = info.full_posting_fields@;
    let mut i: usize = 0;
    while i < info.full_posting_fields.len()
        invariant
            i <= pfields.len(),
            pfields == info.full_posting_fields@,
            out@ == after_dicts + full_posting_tasks(pfields.take(i as int), n_segments as nat),
        decreases pfields.len() - i,
    {
        push_full_posting_segs(&mut out, info.full_posting_fields[i], n_segments);
        proof {
            assert(pfields.take(i + 1).drop_last() =~= pfields.take(i as int));
            assert(pfields.take(i + 1).last() == pfields[i as int]);
            assert(out@ =~= after_dicts + full_posting_tasks(
                pfields.take(i + 1),
                n_segments as nat,
            ));
        }
        i += 1;
    }
    proof {
        assert(pfields.take(pfields.len() as int) =~= pfields);
    }
    let ghost after_postings = out@;
    let ghost fnames = info.fast_field_names@;
    let mut i: usize = 0;
    while i < info.fast_field_names.len()
        invariant
            i <= fnames.len(),
            fnames == info.fast_field_names@,
            out@ == after_postings + fast_field_tasks(fnames.take(i as int), n_segments as nat),
        decreases fnames.len() - i,
    {
        push_fast_field_segs(&mut out, &info.fast_field_names[i], n_segments);
        proof {
            assert(fnames.take(i + 1).drop_last() =~= fnames.take(i as int));
            assert(fnames.take(i + 1).last() == fnames[i as int]);
            assert(out@ =~= after_postings + fast_field_tasks(
                fnames.take(i + 1),
                n_segments as nat,
            ));
        }
        i += 1;
    }
    proof {
        assert(fnames.take(fnames.len() as int) =~= fnames);
    }
    let ghost after_fast = out@;
    let ghost sfields = schema_fields@;
    if info.field_norms {
        let mut i: usize = 0;
        while i < schema_fields.len()
            invariant
                info.field_norms,
                i <= sfields.len(),
                sfields == schema_fields@,
                out@ == after_fast + fieldnorm_tasks(true, sfields.take(i as int), n_segments as nat),
            decreases sfields.len() - i,
        {
            push_fieldnorm_segs(&mut out, schema_fields[i], n_segments);
            proof {
                assert(sfields.take(i + 1).drop_last() =~= sfields.take(i as int));
                assert(sfields.take(i + 1).last() == sfields[i as int]);
                assert(out@ =~= after_fast + fieldnorm_tasks(
                    true,
                    sfields.take(i + 1),
                    n_segments as nat,
                ));
            }
            i += 1;
        }
        proof {
            assert(sfields.take(sfields.len() as int) =~= sfields);
        }
    } else {
        proof {
            assert(fieldnorm_tasks(false, sfields, n_segments as nat) =~= Seq::<
                WarmupTask,
            >::empty());
            assert(out@ =~= after_fast + fieldnorm_tasks(
                info.field_norms,
                sfields,
                n_segments as nat,
            ));
        }
    }
    out
}

} // verus!
