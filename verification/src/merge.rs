//! The incremental merger: streams per-split responses into one bounded
//! top-K, accumulates counts and failures, and seals the merged response.
//!
//! The merger keeps at most `max_hits` candidate hits, ordered worst first
//! under the request's sort order (falling back to descending split id when
//! the request names no sort). A new hit displaces the worst retained one
//! only when it is strictly better, so once the buffer is full its worst
//! element only ever improves.

use vstd::prelude::*;

use crate::lex::{lemma_lex_le_total, lemma_lex_le_trans, lex_le, str_lex_le};
use vstd::multiset::Multiset;
use crate::request::{
    LeafSearchResponse, PartialHit, SearchRequest, SortOrder, SortValue, SplitSearchError,
};

verus! {

/// The order the merger ranks hits by.
#[derive(Debug, Clone, Copy, PartialEq, Eq, Structural)]
pub enum HitOrdering {
    /// No explicit sort: hits from higher split ids rank higher.
    SplitIdDesc,
    /// Sort value descending: larger values rank higher.
    SortValueDesc,
    /// Sort value ascending: smaller values rank higher.
    SortValueAsc,
}

/// Numeric rank used to order sort values of different kinds against each
/// other; values of one kind compare by their payload.
pub open spec fn sort_value_kind_rank(v: SortValue) -> int {
    match v {
        SortValue::Boolean(_) => 0,
        SortValue::U64(_) => 1,
        SortValue::I64(_) => 2,
    }
}

/// A total preorder on sort values: within one kind the natural order of the
/// payload, across kinds the kind rank; a missing value ranks below every
/// present one.
pub open spec fn sort_value_le(a: Option<SortValue>, b: Option<SortValue>) -> bool {
    match (a, b) {
        (None, _) => true,
        (Some(x), None) => false,
        (Some(x), Some(y)) => match (x, y) {
            (SortValue::Boolean(p), SortValue::Boolean(q)) => !p || q,
            (SortValue::U64(p), SortValue::U64(q)) => p <= q,
            (SortValue::I64(p), SortValue::I64(q)) => p <= q,
            _ => sort_value_kind_rank(x) <= sort_value_kind_rank(y),
        },
    }
}

/// Is hit `a` worse than or tied with hit `b` under the given ordering?
pub open spec fn hit_le(ordering: HitOrdering, a: PartialHit, b: PartialHit) -> bool {
    match ordering {
        HitOrdering::SplitIdDesc => lex_le(a.split_id@, b.split_id@),
        HitOrdering::SortValueDesc => sort_value_le(a.sort_value, b.sort_value),
        HitOrdering::SortValueAsc => sort_value_le(b.sort_value, a.sort_value),
    }
}

pub proof fn lemma_hit_le_total(ordering: HitOrdering, a: PartialHit, b: PartialHit)
    ensures
        hit_le(ordering, a, b) || hit_le(ordering, b, a),
{
    match ordering {
        HitOrdering::SplitIdDesc => {
            lemma_lex_le_total(a.split_id@, b.split_id@);
        },
        _ => {},
    }
}

pub proof fn lemma_hit_le_trans(ordering: HitOrdering, a: PartialHit, b: PartialHit, c: PartialHit)
    requires
        hit_le(ordering, a, b),
        hit_le(ordering, b, c),
    ensures
        hit_le(ordering, a, c),
{
    match ordering {
        HitOrdering::SplitIdDesc => {
            lemma_lex_le_trans(a.split_id@, b.split_id@, c.split_id@);
        },
        _ => {},
    }
}

fn sort_value_le_exec(a: &Option<SortValue>, b: &Option<SortValue>) -> (r: bool)
    ensures
        r == sort_value_le(*a, *b),
{
    match (a, b) {
        (None, _) => true,
        (Some(_), None) => false,
        (Some(x), Some(y)) => match (x, y) {
            (SortValue::Boolean(p), SortValue::Boolean(q)) => !*p || *q,
            (SortValue::U64(p), SortValue::U64(q)) => *p <= *q,
            (SortValue::I64(p), SortValue::I64(q)) => *p <= *q,
            (SortValue::Boolean(_), _) => true,
            (SortValue::U64(_), SortValue::I64(_)) => true,
            (SortValue::U64(_), SortValue::Boolean(_)) => false,
            (SortValue::I64(_), _) => false,
        },
    }
}

fn hit_le_exec(ordering: HitOrdering, a: &PartialHit, b: &PartialHit) -> (r: bool)
    ensures
        r == hit_le(ordering, *a, *b),
{
    match ordering {
        HitOrdering::SplitIdDesc => str_lex_le(a.split_id.as_str(), b.split_id.as_str()),
        HitOrdering::SortValueDesc => sort_value_le_exec(&a.sort_value, &b.sort_value),
        HitOrdering::SortValueAsc => sort_value_le_exec(&b.sort_value, &a.sort_value),
    }
}

/// The ordering a request's sort fields call for; descending split id when
/// no sort field is named, matching the split filter's fallback.
pub open spec fn spec_hit_ordering_for_request(request: SearchRequest) -> HitOrdering {
    if request.sort_fields@.len() == 0 {
        HitOrdering::SplitIdDesc
    } else if request.sort_fields@[0].sort_order == SortOrder::Desc {
        HitOrdering::SortValueDesc
    } else {
        HitOrdering::SortValueAsc
    }
}

pub fn hit_ordering_for_request(request: &SearchRequest) -> (r: HitOrdering)
    ensures
        r == spec_hit_ordering_for_request(*request),
{
    if request.sort_fields.len() == 0 {
        HitOrdering::SplitIdDesc
    } else if request.sort_fields[0].sort_order == SortOrder::Desc {
        HitOrdering::SortValueDesc
    } else {
        HitOrdering::SortValueAsc
    }
}

/// Are the hits ordered worst first?
pub open spec fn hits_sorted(ordering: HitOrdering, s: Seq<PartialHit>) -> bool {
    forall|i: int, j: int| 0 <= i < j < s.len() ==> hit_le(ordering, #[trigger] s[i], #[trigger] s[j])
}

/// A response accounts for its splits: every failure and every successful
/// split was an attempted split.
pub open spec fn response_accounted(resp: LeafSearchResponse) -> bool {
    resp.failed_splits@.len() + resp.num_successful_splits <= resp.num_attempted_splits
}

/// Streams per-split responses into a single bounded top-K plus counts,
/// failures and carried aggregation payloads.
#[derive(Debug)]
pub struct IncrementalMerger {
    pub max_hits: usize,
    pub ordering: HitOrdering,
    pub hits: Vec<PartialHit>,
    pub num_hits: u64,
    pub failed_splits: Vec<SplitSearchError>,
    pub num_attempted_splits: u64,
    pub num_successful_splits: u64,
    pub aggregation_parts: Vec<String>,
}

impl IncrementalMerger {
    /// The merger's invariant: a bounded buffer ordered worst first, and
    /// split accounting that never loses a split (failure totality).
    pub open spec fn wf(&self) -> bool {
        &&& self.hits@.len() <= self.max_hits
        &&& hits_sorted(self.ordering, self.hits@)
        &&& self.failed_splits@.len() + self.num_successful_splits <= self.num_attempted_splits
    }

    pub fn new(max_hits: usize, ordering: HitOrdering) -> (r: IncrementalMerger)
        ensures
            r.wf(),
            r.max_hits == max_hits,
            r.ordering == ordering,
            r.hits@ =~= Seq::<PartialHit>::empty(),
            r.num_hits == 0,
            r.failed_splits@ =~= Seq::<SplitSearchError>::empty(),
            r.num_attempted_splits == 0,
            r.num_successful_splits == 0,
            r.aggregation_parts@ =~= Seq::<String>::empty(),
    {
        IncrementalMerger {
            max_hits,
            ordering,
            hits: Vec::new(),
            num_hits: 0,
            failed_splits: Vec::new(),
            num_attempted_splits: 0,
            num_successful_splits: 0,
            aggregation_parts: Vec::new(),
        }
    }

    /// Inserts one hit, keeping at most `max_hits` and evicting the worst
    /// retained hit only for a strictly better one.
    fn insert_hit(&mut self, hit: PartialHit)
        requires
            old(self).wf(),
        ensures
            final(self).wf(),
            final(self).max_hits == old(self).max_hits,
            final(self).ordering == old(self).ordering,
            final(self).num_hits == old(self).num_hits,
            final(self).failed_splits == old(self).failed_splits,
            final(self).num_attempted_splits == old(self).num_attempted_splits,
            final(self).num_successful_splits == old(self).num_successful_splits,
            final(self).aggregation_parts == old(self).aggregation_parts,
            final(self).hits@.len() == if old(self).hits@.len() < old(self).max_hits
                && old(self).max_hits > 0 {
                old(self).hits@.len() + 1
            } else {
                old(self).hits@.len()
            },
            final(self).hits@.to_multiset().subset_of(
                old(self).hits@.to_multiset().insert(hit),
            ),
            old(self).hits@.len() == old(self).max_hits && old(self).max_hits > 0 ==> hit_le(
                old(self).ordering,
                old(self).hits@[0],
                final(self).hits@[0],
            ),
            old(self).max_hits > 0 ==> forall|v: PartialHit|
                #[trigger] final(self).hits@.to_multiset().count(v) < old(
                    self,
                ).hits@.to_multiset().insert(hit).count(v) ==> (final(self).hits@.len() > 0
                    && hit_le(final(self).ordering, v, final(self).hits@[0])),
            old(self).hits@.len() < old(self).max_hits ==> final(self).hits@.to_multiset()
                =~= old(self).hits@.to_multiset().insert(hit),
    {
        broadcast use vstd::seq_lib::group_to_multiset_ensures;

        let ghost ord = self.ordering;
        let ghost hits0 = self.hits@;
        if self.max_hits == 0 {
            proof {
                lemma_hit_le_total(ord, hit, hit);
                assert(hits0.to_multiset().subset_of(hits0.to_multiset().insert(hit))) by {
                    assert forall|v: PartialHit|
                        hits0.to_multiset().count(v) <= hits0.to_multiset().insert(hit).count(
                            v,
                        ) by {}
                }
            }
            return ;
        }
        if self.hits.len() == self.max_hits {
            let evict = hit_le_exec(self.ordering, &hit, &self.hits[0]);
            if evict {
                // the new hit is not strictly better than the worst retained
                proof {
                    lemma_hit_le_total(ord, hits0[0], hits0[0]);
                    assert(hits0.to_multiset().subset_of(hits0.to_multiset().insert(hit)));
                    assert forall|v: PartialHit|
                        #[trigger] hits0.to_multiset().count(v) < hits0.to_multiset().insert(
                            hit,
                        ).count(v) implies (hits0.len() > 0 && hit_le(ord, v, hits0[0])) by {
                        assert(v == hit);
                    }
                }
                return ;
            }
            let ghost worst0 = hits0[0];
            let _ = self.hits.remove(0);
            let ghost hits1 = self.hits@;
            proof {
                assert(hits1 =~= hits0.remove(0));
                lemma_hit_le_total(ord, hit, worst0);
                assert(hit_le(ord, worst0, hit));
            }
            self.insert_sorted(hit);
            proof {
                let hits2 = self.hits@;
                // the new worst is at or above the old worst
                assert(hits2.len() > 0);
                assert(hit_le(ord, worst0, hits2[0])) by {
                    let v0 = hits2[0];
                    assert(hits2.to_multiset().count(v0) > 0);
                    assert(hits1.to_multiset().insert(hit).count(v0) > 0);
                    if hits1.to_multiset().count(v0) > 0 {
                        let i = choose|i: int| 0 <= i < hits1.len() && hits1[i] == v0;
                        assert(hits1[i] == hits0[i + 1]);
                        assert(hit_le(ord, hits0[0], hits0[i + 1]));
                    } else {
                        assert(v0 == hit);
                    }
                }
                // dropped values lie at or below the new worst
                assert forall|v: PartialHit|
                    #[trigger] hits2.to_multiset().count(v) < hits0.to_multiset().insert(
                        hit,
                    ).count(v) implies (hits2.len() > 0 && hit_le(ord, v, hits2[0])) by {
                    if v == worst0 {
                        assert(hit_le(ord, worst0, hits2[0]));
                    } else {
                        assert(hits0.to_multiset().count(v) == hits1.to_multiset().count(v)) by {
                            assert(hits0.to_multiset() =~= hits1.to_multiset().insert(worst0));
                        }
                        assert(hits2.to_multiset() =~= hits1.to_multiset().insert(hit));
                        assert(false);
                    }
                }
                assert(hits2.to_multiset().subset_of(hits0.to_multiset().insert(hit))) by {
                    assert(hits0.to_multiset() =~= hits1.to_multiset().insert(worst0));
                    assert(hits2.to_multiset() =~= hits1.to_multiset().insert(hit));
                    assert forall|v: PartialHit|
                        hits2.to_multiset().count(v) <= hits0.to_multiset().insert(hit).count(
                            v,
                        ) by {}
                }
            }
        } else {
            self.insert_sorted(hit);
            proof {
                assert(self.hits@.to_multiset() =~= hits0.to_multiset().insert(hit));
                assert(self.hits@.to_multiset().subset_of(hits0.to_multiset().insert(hit)));
                assert forall|v: PartialHit|
                    #[trigger] self.hits@.to_multiset().count(v) < hits0.to_multiset().insert(
                        hit,
                    ).count(v) implies (self.hits@.len() > 0 && hit_le(ord, v, self.hits@[0])) by {
                    assert(false);
                }
            }
        }
    }

    /// Merges one split's response: counts, failures and the carried
    /// aggregation payload are accumulated, and each hit is offered to the
    /// bounded top-K. Once the buffer is full, its worst element only moves
    /// toward better hits, and anything dropped is no better than the worst
    /// retained hit.
    pub fn add_split(&mut self, resp: LeafSearchResponse)
        requires
            old(self).wf(),
            response_accounted(resp),
            old(self).num_hits + resp.num_hits <= u64::MAX,
            old(self).num_attempted_splits + resp.num_attempted_splits <= u64::MAX,
            old(self).num_successful_splits + resp.num_successful_splits <= u64::MAX,
        ensures
            final(self).wf(),
            final(self).max_hits == old(self).max_hits,
            final(self).ordering == old(self).ordering,
            final(self).num_hits == old(self).num_hits + resp.num_hits,
            final(self).num_attempted_splits == old(self).num_attempted_splits
                + resp.num_attempted_splits,
            final(self).num_successful_splits == old(self).num_successful_splits
                + resp.num_successful_splits,
            final(self).failed_splits@ == old(self).failed_splits@ + resp.failed_splits@,
            final(self).aggregation_parts@ == match resp.intermediate_aggregation_result {
                Some(s) => old(self).aggregation_parts@.push(s),
                None => old(self).aggregation_parts@,
            },
            final(self).hits@.to_multiset().subset_of(
                old(self).hits@.to_multiset().add(resp.partial_hits@.to_multiset()),
            ),
            final(self).hits@.len() == if old(self).hits@.len() + resp.partial_hits@.len() <= old(
                self,
            ).max_hits {
                old(self).hits@.len() + resp.partial_hits@.len()
            } else {
                old(self).max_hits as nat
            },
            old(self).hits@.len() == old(self).max_hits && old(self).max_hits > 0 ==> hit_le(
                old(self).ordering,
                old(self).hits@[0],
                final(self).hits@[0],
            ),
            old(self).max_hits > 0 ==> forall|v: PartialHit|
                #[trigger] final(self).hits@.to_multiset().count(v)
                    < old(self).hits@.to_multiset().add(resp.partial_hits@.to_multiset()).count(v)
                    ==> (final(self).hits@.len() > 0 && hit_le(
                    final(self).ordering,
                    v,
                    final(self).hits@[0],
                )),
    {
        broadcast use vstd::seq_lib::group_to_multiset_ensures;

        let ghost ord = self.ordering;
        let ghost base = self.hits@;
        let ghost max = self.max_hits;
        let ghost all = resp.partial_hits@;
        let LeafSearchResponse {
            num_hits,
            partial_hits,
            failed_splits,
            num_attempted_splits,
            num_successful_splits,
            intermediate_aggregation_result,
        } = resp;
        self.num_hits = self.num_hits + num_hits;
        self.num_attempted_splits = self.num_attempted_splits + num_attempted_splits;
        self.num_successful_splits = self.num_successful_splits + num_successful_splits;
        let mut failed = failed_splits;
        self.failed_splits.append(&mut failed);
        match intermediate_aggregation_result {
            Some(s) => self.aggregation_parts.push(s),
            None => {},
        }
        let ghost nh = self.num_hits;
        let ghost na = self.num_attempted_splits;
        let ghost ns = self.num_successful_splits;
        let ghost failed_now = self.failed_splits@;
        let ghost agg_now = self.aggregation_parts@;
        let mut hits = partial_hits;
        proof {
            assert(all.take(all.len() as int) =~= all);
            assert(all.skip(all.len() as int) =~= Seq::<PartialHit>::empty());
            assert forall|v: PartialHit|
                base.to_multiset().add(Seq::<PartialHit>::empty().to_multiset()).count(v)
                    == base.to_multiset().count(v) by {}
            assert(base.to_multiset().add(Seq::<PartialHit>::empty().to_multiset())
                =~= base.to_multiset());
            if base.len() > 0 {
                lemma_hit_le_total(ord, base[0], base[0]);
            }
        }
        while hits.len() > 0
            invariant
                self.wf(),
                self.max_hits == max,
                self.ordering == ord,
                self.num_hits == nh,
                self.num_attempted_splits == na,
                self.num_successful_splits == ns,
                self.failed_splits@ == failed_now,
                self.aggregation_parts@ == agg_now,
                hits@ == all.take(hits@.len() as int),
                hits@.len() <= all.len(),
                self.hits@.to_multiset().subset_of(
                    base.to_multiset().add(all.skip(hits@.len() as int).to_multiset()),
                ),
                self.hits@.len() < max ==> self.hits@.to_multiset() =~= base.to_multiset().add(
                    all.skip(hits@.len() as int).to_multiset(),
                ),
                self.hits@.len() == if base.len() + all.skip(hits@.len() as int).len() <= max {
                    base.len() + all.skip(hits@.len() as int).len()
                } else {
                    max as nat
                },
                base.len() == max && max > 0 ==> hit_le(ord, base[0], self.hits@[0]),
                max > 0 ==> forall|v: PartialHit|
                    #[trigger] self.hits@.to_multiset().count(v) < base.to_multiset().add(
                        all.skip(hits@.len() as int).to_multiset(),
                    ).count(v) ==> (self.hits@.len() > 0 && hit_le(ord, v, self.hits@[0])),
            decreases hits@.len(),
        {
            let ghost k = hits@.len() as int;
            let ghost cur = self.hits@;
            let h = hits.pop().unwrap();
            let ghost hv = h;
            proof {
                assert(hv == all[k - 1]);
                assert(hits@ =~= all.take(k - 1));
                assert(all.skip(k - 1) =~= all.skip(k).insert(0, hv));
                crate::sort::lemma_seq_insert_to_multiset(all.skip(k), 0, hv);
                assert(all.skip(k - 1).to_multiset() =~= all.skip(k).to_multiset().insert(hv));
                assert(base.to_multiset().add(all.skip(k - 1).to_multiset()) =~= base.to_multiset(
                ).add(all.skip(k).to_multiset()).insert(hv));
            }
            self.insert_hit(h);
            proof {
                let combined = base.to_multiset().add(all.skip(k - 1).to_multiset());
                let prev_combined = base.to_multiset().add(all.skip(k).to_multiset());
                if max > 0 {
                    assert forall|v: PartialHit|
                        #[trigger] self.hits@.to_multiset().count(v) < combined.count(
                            v,
                        ) implies (self.hits@.len() > 0 && hit_le(ord, v, self.hits@[0])) by {
                        if self.hits@.to_multiset().count(v) < cur.to_multiset().insert(hv).count(
                            v,
                        ) {
                            // dropped by this insertion
                        } else {
                            // dropped earlier; the worst retained hit only improved
                            assert(cur.to_multiset().count(v) < prev_combined.count(v));
                            assert(cur.len() > 0 && hit_le(ord, v, cur[0]));
                            if cur.len() < max {
                                assert(cur.to_multiset() =~= prev_combined);
                                assert(false);
                            }
                            assert(cur.len() == max);
                            assert(hit_le(ord, cur[0], self.hits@[0]));
                            lemma_hit_le_trans(ord, v, cur[0], self.hits@[0]);
                        }
                    }
                }
                if base.len() == max && max > 0 {
                    assert(cur.len() == max);
                    lemma_hit_le_trans(ord, base[0], cur[0], self.hits@[0]);
                }
                if self.hits@.len() < max {
                    assert(cur.len() < max);
                    assert(self.hits@.to_multiset() =~= cur.to_multiset().insert(hv));
                    assert(cur.to_multiset() =~= prev_combined);
                    assert(self.hits@.to_multiset() =~= combined);
                }
            }
        }
        proof {
            assert(all.skip(0) =~= all);
            assert(all.take(0) =~= Seq::<PartialHit>::empty());
        }
    }

    /// Records a split that failed: the failure is kept for the response and
    /// the split is counted as attempted.
    pub fn add_failed_split(&mut self, error: SplitSearchError)
        requires
            old(self).wf(),
            old(self).num_attempted_splits < u64::MAX,
        ensures
            final(self).wf(),
            final(self).max_hits == old(self).max_hits,
            final(self).ordering == old(self).ordering,
            final(self).hits == old(self).hits,
            final(self).num_hits == old(self).num_hits,
            final(self).failed_splits@ == old(self).failed_splits@.push(error),
            final(self).num_attempted_splits == old(self).num_attempted_splits + 1,
            final(self).num_successful_splits == old(self).num_successful_splits,
            final(self).aggregation_parts == old(self).aggregation_parts,
    {
        self.failed_splits.push(error);
        self.num_attempted_splits = self.num_attempted_splits + 1;
    }

    /// The hit that a strictly better hit would evict: the worst retained
    /// one, present only once the buffer holds a full top-K.
    pub fn peek_worst_hit(&self) -> (r: Option<&PartialHit>)
        ensures
            match r {
                Some(h) => self.hits@.len() >= self.max_hits && self.max_hits > 0 && *h
                    == self.hits@[0],
                None => !(self.hits@.len() >= self.max_hits && self.max_hits > 0),
            },
    {
        if self.max_hits > 0 && self.hits.len() >= self.max_hits {
            Some(&self.hits[0])
        } else {
            None
        }
    }

    /// Seals the merge: the retained hits ordered best first, the counts and
    /// the collected failures, plus the carried aggregation payloads for the
    /// caller to combine. Every failure and every successful split is
    /// accounted among the attempted ones.
    pub fn finalize(self) -> (r: (LeafSearchResponse, Vec<String>))
        requires
            self.wf(),
        ensures
            r.0.partial_hits@ == self.hits@.reverse(),
            forall|i: int, j: int|
                0 <= i < j < r.0.partial_hits@.len() ==> hit_le(
                    self.ordering,
                    #[trigger] r.0.partial_hits@[j],
                    #[trigger] r.0.partial_hits@[i],
                ),
            r.0.num_hits == self.num_hits,
            r.0.failed_splits == self.failed_splits,
            r.0.num_attempted_splits == self.num_attempted_splits,
            r.0.num_successful_splits == self.num_successful_splits,
            r.0.intermediate_aggregation_result == None::<String>,
            r.1 == self.aggregation_parts,
            response_accounted(r.0),
    {
        let IncrementalMerger {
            max_hits: _,
            ordering: _,
            hits,
            num_hits,
            failed_splits,
            num_attempted_splits,
            num_successful_splits,
            aggregation_parts,
        } = self;
        let ghost hits0 = hits@;
        let ghost ord = self.ordering;
        let mut hits = hits;
        let mut out: Vec<PartialHit> = Vec::new();
        proof {
            assert(hits0.take(hits0.len() as int) =~= hits0);
            assert(hits0.skip(hits0.len() as int).reverse() =~= Seq::<PartialHit>::empty());
        }
        while hits.len() > 0
            invariant
                hits@.len() <= hits0.len(),
                hits@ == hits0.take(hits@.len() as int),
                out@ == hits0.skip(hits@.len() as int).reverse(),
            decreases hits@.len(),
        {
            let ghost k = hits@.len() as int;
            let ghost out_prev = out@;
            let h = hits.pop().unwrap();
            let ghost hv = h;
            proof {
                assert(hv == hits0[k - 1]);
                assert(hits@ =~= hits0.take(k - 1));
            }
            out.push(h);
            proof {
                assert(out@ =~= hits0.skip(k - 1).reverse()) by {
                    assert(out@ == out_prev.push(hv));
                    assert(hits0.skip(k - 1) =~= seq![hv] + hits0.skip(k));
                    assert(hits0.skip(k - 1).reverse() =~= hits0.skip(k).reverse().push(hv));
                }
            }
        }
        proof {
            assert(hits0.skip(0) =~= hits0);
            assert(out@ == hits0.reverse());
        }
        let response = LeafSearchResponse {
            num_hits,
            partial_hits: out,
            failed_splits,
            num_attempted_splits,
            num_successful_splits,
            intermediate_aggregation_result: None,
        };
        proof {
            assert forall|i: int, j: int|
                0 <= i < j < response.partial_hits@.len() implies hit_le(
                ord,
                #[trigger] response.partial_hits@[j],
                #[trigger] response.partial_hits@[i],
            ) by {
                let n = hits0.len() as int;
                assert(response.partial_hits@[j] == hits0[n - 1 - j]);
                assert(response.partial_hits@[i] == hits0[n - 1 - i]);
            }
        }
        (response, aggregation_parts)
    }

    /// Inserts a hit at its ordered position, worst first.
    fn insert_sorted(&mut self, hit: PartialHit)
        requires
            old(self).wf(),
            old(self).hits@.len() < old(self).max_hits,
        ensures
            final(self).wf(),
            final(self).max_hits == old(self).max_hits,
            final(self).ordering == old(self).ordering,
            final(self).num_hits == old(self).num_hits,
            final(self).failed_splits == old(self).failed_splits,
            final(self).num_attempted_splits == old(self).num_attempted_splits,
            final(self).num_successful_splits == old(self).num_successful_splits,
            final(self).aggregation_parts == old(self).aggregation_parts,
            final(self).hits@.to_multiset() =~= old(self).hits@.to_multiset().insert(hit),
            final(self).hits@.len() == old(self).hits@.len() + 1,
            hits_sorted(final(self).ordering, final(self).hits@),
    {
        broadcast use vstd::seq_lib::group_to_multiset_ensures;

        let ghost ord = self.ordering;
        let ghost hits0 = self.hits@;
        let mut k: usize = 0;
        while k < self.hits.len() && hit_le_exec(self.ordering, &self.hits[k], &hit)
            invariant
                self.ordering == ord,
                self.hits@ == hits0,
                k <= hits0.len(),
                hits_sorted(ord, hits0),
                forall|i: int| 0 <= i < k ==> hit_le(ord, #[trigger] hits0[i], hit),
            decreases hits0.len() - k,
        {
            k += 1;
        }
        proof {
            if k < hits0.len() {
                lemma_hit_le_total(ord, hits0[k as int], hit);
                assert(hit_le(ord, hit, hits0[k as int]));
            }
            assert forall|j: int| k <= j < hits0.len() implies hit_le(
                ord,
                hit,
                #[trigger] hits0[j],
            ) by {
                if j > k {
                    lemma_hit_le_trans(ord, hit, hits0[k as int], hits0[j]);
                }
            }
        }
        self.hits.insert(k, hit);
        proof {
            assert(self.hits@ == hits0.insert(k as int, hit));
            crate::sort::lemma_seq_insert_to_multiset(hits0, k as int, hit);
            assert forall|i: int, j: int| 0 <= i < j < self.hits@.len() implies hit_le(
                ord,
                #[trigger] self.hits@[i],
                #[trigger] self.hits@[j],
            ) by {
                let s = self.hits@;
                if j < k {
                    assert(s[i] == hits0[i] && s[j] == hits0[j]);
                } else if j == k {
                    assert(s[i] == hits0[i] && s[j] == hit);
                } else if i < k {
                    assert(s[i] == hits0[i] && s[j] == hits0[j - 1]);
                } else if i == k {
                    assert(s[i] == hit && s[j] == hits0[j - 1]);
                } else {
                    assert(s[i] == hits0[i - 1] && s[j] == hits0[j - 1]);
                }
            }
        }
    }
}

} // verus!
