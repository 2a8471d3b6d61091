//! Ordering the splits so that the ones most likely to fill the top-K come
//! first, making the split filter's pruning as effective as possible.

use vstd::prelude::*;

use crate::filter::CanSplitDoBetter;
use crate::lex::{lemma_lex_le_total, lemma_lex_le_trans, lex_le, str_lex_le};
use crate::request::SplitIdAndFooterOffsets;
use vstd::multiset::Multiset;
use vstd::seq_lib::lemma_multiset_commutative;

verus! {

/// The processing order a filter calls for: newest split ids first when
/// nothing else is known, highest timestamp ends first for a descending
/// timestamp sort (and the trace-id aggregation), lowest timestamp starts
/// first for an ascending one. An uninformative filter orders nothing.
pub open spec fn split_le(
    filter: CanSplitDoBetter,
    a: SplitIdAndFooterOffsets,
    b: SplitIdAndFooterOffsets,
) -> bool {
    match filter {
        CanSplitDoBetter::Uninformative => true,
        CanSplitDoBetter::SplitIdHigher(_) => lex_le(b.split_id@, a.split_id@),
        CanSplitDoBetter::SplitTimestampHigher(_) => b.spec_timestamp_end()
            <= a.spec_timestamp_end(),
        CanSplitDoBetter::FindTraceIdsAggregation(_) => b.spec_timestamp_end()
            <= a.spec_timestamp_end(),
        CanSplitDoBetter::SplitTimestampLower(_) => a.spec_timestamp_start()
            <= b.spec_timestamp_start(),
    }
}

/// Is the sequence ordered the way the filter wants to process it?
pub open spec fn splits_sorted(filter: CanSplitDoBetter, s: Seq<SplitIdAndFooterOffsets>) -> bool {
    forall|i: int, j: int| 0 <= i < j < s.len() ==> split_le(filter, #[trigger] s[i], #[trigger] s[j])
}

proof fn lemma_split_le_total(
    filter: CanSplitDoBetter,
    a: SplitIdAndFooterOffsets,
    b: SplitIdAndFooterOffsets,
)
    ensures
        split_le(filter, a, b) || split_le(filter, b, a),
{
    match filter {
        CanSplitDoBetter::SplitIdHigher(_) => {
            lemma_lex_le_total(b.split_id@, a.split_id@);
        },
        _ => {},
    }
}

proof fn lemma_split_le_trans(
    filter: CanSplitDoBetter,
    a: SplitIdAndFooterOffsets,
    b: SplitIdAndFooterOffsets,
    c: SplitIdAndFooterOffsets,
)
    requires
        split_le(filter, a, b),
        split_le(filter, b, c),
    ensures
        split_le(filter, a, c),
{
    match filter {
        CanSplitDoBetter::SplitIdHigher(_) => {
            lemma_lex_le_trans(c.split_id@, b.split_id@, a.split_id@);
        },
        _ => {},
    }
}

fn split_le_exec(
    filter: &CanSplitDoBetter,
    a: &SplitIdAndFooterOffsets,
    b: &SplitIdAndFooterOffsets,
) -> (r: bool)
    ensures
        r == split_le(*filter, *a, *b),
{
    match filter {
        CanSplitDoBetter::Uninformative => true,
        CanSplitDoBetter::SplitIdHigher(_) => str_lex_le(b.split_id.as_str(), a.split_id.as_str()),
        CanSplitDoBetter::SplitTimestampHigher(_) => b.timestamp_end() <= a.timestamp_end(),
        CanSplitDoBetter::FindTraceIdsAggregation(_) => b.timestamp_end() <= a.timestamp_end(),
        CanSplitDoBetter::SplitTimestampLower(_) => a.timestamp_start() <= b.timestamp_start(),
    }
}

pub proof fn lemma_seq_insert_to_multiset<A>(s: Seq<A>, i: int, x: A)
    requires
        0 <= i <= s.len(),
    ensures
        s.insert(i, x).to_multiset() =~= s.to_multiset().insert(x),
{
    broadcast use vstd::seq_lib::group_to_multiset_ensures;

    let a = s.take(i);
    let b = s.skip(i);
    assert(s =~= a + b);
    lemma_multiset_commutative(a, b);
    assert(s.insert(i, x) =~= a.push(x) + b);
    lemma_multiset_commutative(a.push(x), b);
    assert(a.push(x).to_multiset() =~= a.to_multiset().insert(x));
}

impl CanSplitDoBetter {
    /// Reorders the splits so that the first ones are the most likely to
    /// fill the top-K. The splits are permuted, ordered as the filter wants
    /// them, and left untouched by an uninformative filter.
    pub fn optimize_split_order(&self, splits: &mut Vec<SplitIdAndFooterOffsets>)
        ensures
            final(splits)@.to_multiset() == old(splits)@.to_multiset(),
            splits_sorted(*self, final(splits)@),
            *self is Uninformative ==> final(splits)@ == old(splits)@,
    {
        if matches!(self, CanSplitDoBetter::Uninformative) {
            return ;
        }
        let mut out: Vec<SplitIdAndFooterOffsets> = Vec::new();
        proof {
            broadcast use vstd::seq_lib::group_to_multiset_ensures;

            assert(out@.to_multiset().add(splits@.to_multiset()) =~= old(splits)@.to_multiset());
        }
        while splits.len() > 0
            invariant
                out@.to_multiset().add(splits@.to_multiset()) =~= old(splits)@.to_multiset(),
                splits_sorted(*self, out@),
            decreases splits@.len(),
        {
            let ghost splits_before = splits@;
            let ghost out_before = out@;
            let x = splits.pop().unwrap();
            proof {
                broadcast use vstd::seq_lib::group_to_multiset_ensures;

                assert(splits@ =~= splits_before.remove(splits_before.len() - 1));
                assert(splits_before.to_multiset() =~= splits@.to_multiset().insert(x));
            }
            let mut k: usize = 0;
            while k < out.len() && split_le_exec(self, &out[k], &x)
                invariant
                    k <= out@.len(),
                    splits_sorted(*self, out@),
                    forall|i: int| 0 <= i < k ==> split_le(*self, #[trigger] out@[i], x),
                decreases out@.len() - k,
            {
                k += 1;
            }
            proof {
                if k < out@.len() {
                    lemma_split_le_total(*self, out@[k as int], x);
                    assert(split_le(*self, x, out@[k as int]));
                }
                assert forall|j: int| k <= j < out@.len() implies split_le(
                    *self,
                    x,
                    #[trigger] out@[j],
                ) by {
                    if j > k {
                        lemma_split_le_trans(*self, x, out@[k as int], out@[j]);
                    }
                }
            }
            out.insert(k, x);
            proof {
                broadcast use vstd::seq_lib::group_to_multiset_ensures;

                assert(out@ == out_before.insert(k as int, x));
                lemma_seq_insert_to_multiset(out_before, k as int, x);
                assert(out@.to_multiset().add(splits@.to_multiset()) =~= old(
                    splits,
                )@.to_multiset());
                assert forall|i: int, j: int| 0 <= i < j < out@.len() implies split_le(
                    *self,
                    #[trigger] out@[i],
                    #[trigger] out@[j],
                ) by {
                    if j < k {
                        assert(out@[i] == out_before[i] && out@[j] == out_before[j]);
                    } else if j == k {
                        assert(out@[i] == out_before[i] && out@[j] == x);
                    } else if i < k {
                        assert(out@[i] == out_before[i] && out@[j] == out_before[j - 1]);
                    } else if i == k {
                        assert(out@[i] == x && out@[j] == out_before[j - 1]);
                    } else {
                        assert(out@[i] == out_before[i - 1] && out@[j] == out_before[j - 1]);
                    }
                }
            }
        }
        proof {
            broadcast use vstd::seq_lib::group_to_multiset_ensures;

            assert(splits@ =~= Seq::<SplitIdAndFooterOffsets>::empty());
            assert(splits@.to_multiset() =~= Multiset::<SplitIdAndFooterOffsets>::empty());
            assert(out@.to_multiset() =~= old(splits)@.to_multiset());
        }
        core::mem::swap(splits, &mut out);
    }
}

} // verus!
