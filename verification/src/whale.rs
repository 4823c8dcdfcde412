//! The whale filter: a stateless pass over the transfer stream that keeps
//! exactly the transfers whose amount meets or exceeds a fixed threshold,
//! by exact arbitrary-precision comparison, preserving input order.

use vstd::prelude::*;
use crate::numeric::{is_int_str, int_val, val_or_zero, or_zero, big_ge};
use crate::records::{TransferRecord, TransferV};

verus! {

/// The transfers whose amount is at least `threshold`, in input order.
/// A malformed amount compares as zero.
pub open spec fn spec_whale_filter(ts: Seq<TransferV>, threshold: int) -> Seq<TransferV>
    decreases ts.len(),
{
    if ts.len() == 0 {
        Seq::empty()
    } else {
        let prev = spec_whale_filter(ts.drop_last(), threshold);
        if val_or_zero(ts.last().amount) >= threshold {
            prev.push(ts.last())
        } else {
            prev
        }
    }
}

/// Keeps exactly the transfers whose amount meets or exceeds `threshold`,
/// comparing as exact integers; malformed amounts compare as zero.  Output
/// order is input order.
pub fn filter_whales(transfers: &Vec<TransferRecord>, threshold: &str) -> (r: Vec<TransferRecord>)
    requires
        is_int_str(threshold@),
    ensures
        r.deep_view() == spec_whale_filter(transfers.deep_view(), int_val(threshold@)),
{
    let ghost tsv = transfers.deep_view();
    let ghost th = int_val(threshold@);
    let mut r: Vec<TransferRecord> = Vec::new();
    let mut i: usize = 0;
    while i < transfers.len()
        invariant
            i <= transfers.len(),
            tsv == transfers.deep_view(),
            tsv.len() == transfers@.len(),
            is_int_str(threshold@),
            th == int_val(threshold@),
            r.deep_view() == spec_whale_filter(tsv.take(i as int), th),
        decreases transfers.len() - i,
    {
        let t = &transfers[i];
        proof {
            assert(t@ == tsv[i as int]);
        }
        let a = or_zero(t.amount.as_str());
        let ghost before = r.deep_view();
        if big_ge(a.as_str(), threshold) {
            r.push(t.clone());
            proof {
                assert(r.deep_view() =~= before.push(tsv[i as int]));
            }
        }
        proof {
            assert(tsv.take(i + 1).drop_last() =~= tsv.take(i as int));
            assert(tsv.take(i + 1).last() == tsv[i as int]);
        }
        i += 1;
    }
    proof {
        assert(tsv.take(tsv.len() as int) =~= tsv);
    }
    r
}

/// Whale-filter exactness: everything kept comes from the input and carries
/// an amount at least the threshold, and every input transfer whose amount
/// is at least the threshold is kept.
pub proof fn lemma_whale_filter_exact(ts: Seq<TransferV>, threshold: int)
    ensures
        forall|j: int|
            0 <= j < spec_whale_filter(ts, threshold).len() ==> val_or_zero(
                (#[trigger] spec_whale_filter(ts, threshold)[j]).amount,
            ) >= threshold && ts.contains(spec_whale_filter(ts, threshold)[j]),
        forall|i: int|
            0 <= i < ts.len() && val_or_zero((#[trigger] ts[i]).amount) >= threshold
                ==> spec_whale_filter(ts, threshold).contains(ts[i]),
    decreases ts.len(),
{
    if ts.len() > 0 {
        let rest = ts.drop_last();
        lemma_whale_filter_exact(rest, threshold);
        let prev = spec_whale_filter(rest, threshold);
        let whole = spec_whale_filter(ts, threshold);
        assert(forall|k: int| 0 <= k < rest.len() ==> #[trigger] rest[k] == ts[k]);
        assert forall|j: int|
            0 <= j < whole.len() implies val_or_zero((#[trigger] whole[j]).amount) >= threshold
            && ts.contains(whole[j]) by {
            if j < prev.len() {
                assert(whole[j] == prev[j]);
                assert(rest.contains(prev[j]));
                let w = choose|w: int| 0 <= w < rest.len() && rest[w] == prev[j];
                assert(ts[w] == whole[j]);
            } else {
                assert(whole[j] == ts.last());
                assert(ts[ts.len() - 1] == whole[j]);
            }
        }
        assert forall|i: int|
            0 <= i < ts.len() && val_or_zero((#[trigger] ts[i]).amount) >= threshold implies whole
            .contains(ts[i]) by {
            if i < ts.len() - 1 {
                assert(rest[i] == ts[i]);
                assert(prev.contains(ts[i]));
                let w = choose|w: int| 0 <= w < prev.len() && prev[w] == ts[i];
                assert(whole[w] == ts[i]);
            } else {
                assert(ts[i] == ts.last());
                assert(whole.last() == ts[i]);
            }
        }
    }
}

} // verus!
