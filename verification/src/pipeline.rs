//! Pipeline glue: one block through the whole core, in the runtime's fixed
//! stage order -- ledger application, whale filtering, reconciliation.  The
//! configuration (tracked token id, whale threshold) is an explicit value,
//! fixed at process start.

use vstd::prelude::*;
use crate::numeric::{is_int_str, int_val, dec_rep};
use crate::records::{TransferRecord, LedgerDelta, EntityMutation};
use crate::ledger::{BalanceLedger, spec_block_deltas, touched_addrs, net_change, lbal, lhas, lval};
use crate::whale::{spec_whale_filter, filter_whales};
use crate::reconcile::{spec_reconcile, reconcile};

verus! {

/// How many transfers of a block carry a malformed amount string (each of
/// which contributes zero to every balance and never passes the whale
/// filter).
pub open spec fn spec_malformed_count(ts: Seq<crate::records::TransferV>) -> int
    decreases ts.len(),
{
    if ts.len() == 0 {
        0
    } else {
        spec_malformed_count(ts.drop_last()) + if is_int_str(ts.last().amount) {
            0int
        } else {
            1int
        }
    }
}

/// Counts the transfers whose amount string is malformed and therefore fell
/// back to zero: the observability hook for the fail-soft path.
pub fn count_malformed_amounts(transfers: &Vec<TransferRecord>) -> (n: usize)
    ensures
        n == spec_malformed_count(transfers.deep_view()),
{
    let ghost tsv = transfers.deep_view();
    let mut n: usize = 0;
    let mut j: usize = 0;
    while j < transfers.len()
        invariant
            j <= transfers.len(),
            tsv == transfers.deep_view(),
            tsv.len() == transfers@.len(),
            n <= j,
            n == spec_malformed_count(tsv.take(j as int)),
        decreases transfers.len() - j,
    {
        let t = &transfers[j];
        proof {
            assert(t@ == tsv[j as int]);
            assert(tsv.take(j + 1).drop_last() =~= tsv.take(j as int));
            assert(tsv.take(j + 1).last() == tsv[j as int]);
        }
        if !crate::numeric::check_int_str(t.amount.as_str()) {
            n += 1;
        }
        j += 1;
    }
    proof {
        assert(tsv.take(tsv.len() as int) =~= tsv);
    }
    n
}

/// The fixed per-process configuration: the tracked contract's canonical
/// address, doubling as the Token entity id, and the whale threshold in
/// base units.
pub struct PipelineConfig {
    pub token_id: String,
    pub whale_threshold: String,
}

impl PipelineConfig {
    /// The threshold must be a well-formed integer string.
    pub open spec fn wf(&self) -> bool {
        is_int_str(self.whale_threshold@)
    }
}

/// Processes one block: applies every transfer to the ledger in extractor
/// order, filters the same transfers for whales, and reconciles the
/// resulting deltas and whale list into the block's mutation sequence.
/// Returns the deltas, the whale transfers and the mutations, each pinned
/// to its mathematical definition, so reprocessing a block from the same
/// ledger state reproduces them exactly.
pub fn process_block(
    ledger: &mut BalanceLedger,
    transfers: &Vec<TransferRecord>,
    config: &PipelineConfig,
) -> (r: (Vec<LedgerDelta>, Vec<TransferRecord>, Vec<EntityMutation>))
    requires
        old(ledger).wf(),
        config.wf(),
    ensures
        final(ledger).wf(),
        r.0.deep_view() == spec_block_deltas(old(ledger)@, transfers.deep_view()),
        r.1.deep_view() == spec_whale_filter(
            transfers.deep_view(),
            int_val(config.whale_threshold@),
        ),
        r.2.deep_view() == spec_reconcile(
            spec_block_deltas(old(ledger)@, transfers.deep_view()),
            spec_whale_filter(transfers.deep_view(), int_val(config.whale_threshold@)),
            config.token_id@,
        ),
        forall|a: Seq<char>|
            touched_addrs(transfers.deep_view()).contains(a) ==> #[trigger] lbal(final(ledger)@, a)
                == dec_rep(lval(old(ledger)@, a) + net_change(transfers.deep_view(), a)),
        forall|a: Seq<char>|
            !touched_addrs(transfers.deep_view()).contains(a) ==> #[trigger] lbal(final(ledger)@, a)
                == lbal(old(ledger)@, a),
        forall|a: Seq<char>|
            !touched_addrs(transfers.deep_view()).contains(a) ==> #[trigger] lhas(final(ledger)@, a)
                == lhas(old(ledger)@, a),
{
    let deltas = ledger.apply_block(transfers);
    let whales = filter_whales(transfers, config.whale_threshold.as_str());
    let mutations = reconcile(&deltas, &whales, &config.token_id);
    (deltas, whales, mutations)
}

} // verus!
