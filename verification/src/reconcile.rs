//! The delta reconciler: turns one block's ledger deltas and whale-filtered
//! transfers into an ordered list of entity mutations for the downstream
//! sink.  Wallet and Token mutations come first, in delta order; WhaleTransfer
//! creations follow, in log-ordinal order.  Reprocessing the same inputs
//! yields the identical sequence, field order included.

use vstd::prelude::*;
use vstd::string::StringExecFns;
use crate::numeric::{
    val_or_zero, dec_rep, lemma_dec_rep_zero, big_sub, or_zero, u64_to_dec, zero_string,
};
use crate::records::{
    TransferRecord, TransferV, LedgerDelta, DeltaV, EntityMutation, MutationV, FieldValue,
    EntityType, Operation,
};

verus! {

/// The supply movement a delta reports: `new - old`, malformed values
/// reading as zero.
pub open spec fn supply_change(d: DeltaV) -> int {
    val_or_zero(d.new_value) - val_or_zero(d.old_value)
}

/// The Wallet mutation for one delta: the address's new balance, and the
/// foreign key to the tracked token.
pub open spec fn spec_wallet_mut(d: DeltaV, token: Seq<char>) -> MutationV {
    MutationV {
        entity: EntityType::Wallet,
        id: d.address,
        ordinal: d.ordinal,
        op: Operation::Update,
        fields: seq![("balance"@, d.new_value), ("token"@, token)],
    }
}

/// The Token mutation for one delta: the supply movement, to be additively
/// merged by the sink.
pub open spec fn spec_token_mut(d: DeltaV, token: Seq<char>) -> MutationV {
    MutationV {
        entity: EntityType::Token,
        id: token,
        ordinal: d.ordinal,
        op: Operation::Update,
        fields: seq![("circulatingSupply"@, dec_rep(supply_change(d)))],
    }
}

/// What one delta emits: always its Wallet mutation, and a Token mutation
/// exactly when the supply movement is non-zero.
pub open spec fn spec_delta_muts(d: DeltaV, token: Seq<char>) -> Seq<MutationV> {
    if supply_change(d) != 0 {
        seq![spec_wallet_mut(d, token), spec_token_mut(d, token)]
    } else {
        seq![spec_wallet_mut(d, token)]
    }
}

/// Phase one: the Wallet and Token mutations of all deltas, in delta order.
pub open spec fn spec_wallet_phase(ds: Seq<DeltaV>, token: Seq<char>) -> Seq<MutationV>
    decreases ds.len(),
{
    if ds.len() == 0 {
        Seq::empty()
    } else {
        spec_wallet_phase(ds.drop_last(), token) + spec_delta_muts(ds.last(), token)
    }
}

/// The identifier of a whale-transfer entity: transaction hash, a hyphen,
/// and the log ordinal in decimal.
pub open spec fn spec_whale_id(t: TransferV) -> Seq<char> {
    t.tx_hash + "-"@ + dec_rep(t.log_index)
}

/// The WhaleTransfer creation for one kept transfer.
pub open spec fn spec_whale_mut(t: TransferV, token: Seq<char>) -> MutationV {
    MutationV {
        entity: EntityType::WhaleTransfer,
        id: spec_whale_id(t),
        ordinal: t.log_index,
        op: Operation::Create,
        fields: seq![
            ("token"@, token),
            ("fromWallet"@, t.from),
            ("toWallet"@, t.to),
            ("amount"@, t.amount),
            ("timestamp"@, dec_rep(t.block_time)),
            ("txHash"@, t.tx_hash),
        ],
    }
}

/// Phase two: the WhaleTransfer creations, in input (log-ordinal) order.
pub open spec fn spec_whale_phase(ws: Seq<TransferV>, token: Seq<char>) -> Seq<MutationV>
    decreases ws.len(),
{
    if ws.len() == 0 {
        Seq::empty()
    } else {
        spec_whale_phase(ws.drop_last(), token) + seq![spec_whale_mut(ws.last(), token)]
    }
}

/// The whole reconciliation: phase one, then phase two.
pub open spec fn spec_reconcile(ds: Seq<DeltaV>, ws: Seq<TransferV>, token: Seq<char>) -> Seq<
    MutationV,
> {
    spec_wallet_phase(ds, token) + spec_whale_phase(ws, token)
}

/// Builds the exact mutation sequence for one block: for each delta, in
/// order, a Wallet update (balance, token link) and -- when the balance
/// moved -- a Token update carrying the supply change; then, for each whale
/// transfer, in order, a WhaleTransfer creation.  Never fails: malformed
/// numeric strings read as zero.
pub fn reconcile(
    deltas: &Vec<LedgerDelta>,
    whales: &Vec<TransferRecord>,
    token_id: &String,
) -> (r: Vec<EntityMutation>)
    ensures
        r.deep_view() == spec_reconcile(deltas.deep_view(), whales.deep_view(), token_id@),
{
    let ghost dsv = deltas.deep_view();
    let ghost wsv = whales.deep_view();
    let ghost token = token_id@;
    let mut r: Vec<EntityMutation> = Vec::new();
    let mut i: usize = 0;
    while i < deltas.len()
        invariant
            i <= deltas.len(),
            dsv == deltas.deep_view(),
            dsv.len() == deltas@.len(),
            token == token_id@,
            r.deep_view() == spec_wallet_phase(dsv.take(i as int), token),
        decreases deltas.len() - i,
    {
        let d = &deltas[i];
        proof {
            assert(d@ == dsv[i as int]);
        }
        let mut wallet_fields: Vec<FieldValue> = Vec::new();
        wallet_fields.push(
            FieldValue { name: "balance".to_owned(), value: d.new_value.clone() },
        );
        wallet_fields.push(FieldValue { name: "token".to_owned(), value: token_id.clone() });
        let wallet_mut = EntityMutation {
            entity: EntityType::Wallet,
            id: d.address.clone(),
            ordinal: d.ordinal,
            op: Operation::Update,
            fields: wallet_fields,
        };
        let ghost before = r.deep_view();
        proof {
            assert(wallet_mut.fields.deep_view() =~= spec_wallet_mut(dsv[i as int], token).fields);
            assert(wallet_mut@ == spec_wallet_mut(dsv[i as int], token));
        }
        r.push(wallet_mut);
        proof {
            assert(r.deep_view() =~= before.push(spec_wallet_mut(dsv[i as int], token)));
        }
        let new_ok = or_zero(d.new_value.as_str());
        let old_ok = or_zero(d.old_value.as_str());
        let diff = big_sub(new_ok.as_str(), old_ok.as_str());
        proof {
            assert(diff@ == dec_rep(supply_change(dsv[i as int])));
            lemma_dec_rep_zero(supply_change(dsv[i as int]));
        }
        let zero = zero_string();
        if !(diff == zero) {
            let mut token_fields: Vec<FieldValue> = Vec::new();
            token_fields.push(FieldValue { name: "circulatingSupply".to_owned(), value: diff });
            let token_mut = EntityMutation {
                entity: EntityType::Token,
                id: token_id.clone(),
                ordinal: d.ordinal,
                op: Operation::Update,
                fields: token_fields,
            };
            let ghost mid = r.deep_view();
            proof {
                assert(token_mut.fields.deep_view() =~= spec_token_mut(
                    dsv[i as int],
                    token,
                ).fields);
                assert(token_mut@ == spec_token_mut(dsv[i as int], token));
            }
            r.push(token_mut);
            proof {
                assert(r.deep_view() =~= mid.push(spec_token_mut(dsv[i as int], token)));
            }
        }
        proof {
            assert(dsv.take(i + 1).drop_last() =~= dsv.take(i as int));
            assert(dsv.take(i + 1).last() == dsv[i as int]);
            assert(r.deep_view() =~= before + spec_delta_muts(dsv[i as int], token));
        }
        i += 1;
    }
    proof {
        assert(dsv.take(dsv.len() as int) =~= dsv);
    }
    let ghost phase1 = r.deep_view();
    let mut j: usize = 0;
    while j < whales.len()
        invariant
            j <= whales.len(),
            wsv == whales.deep_view(),
            wsv.len() == whales@.len(),
            token == token_id@,
            phase1 == spec_wallet_phase(dsv, token),
            r.deep_view() == phase1 + spec_whale_phase(wsv.take(j as int), token),
        decreases whales.len() - j,
    {
        let t = &whales[j];
        proof {
            assert(t@ == wsv[j as int]);
        }
        let idx_str = u64_to_dec(t.log_index);
        let mut id = t.tx_hash.clone();
        id.append("-");
        id.append(idx_str.as_str());
        let mut whale_fields: Vec<FieldValue> = Vec::new();
        whale_fields.push(FieldValue { name: "token".to_owned(), value: token_id.clone() });
        whale_fields.push(FieldValue { name: "fromWallet".to_owned(), value: t.from.clone() });
        whale_fields.push(FieldValue { name: "toWallet".to_owned(), value: t.to.clone() });
        whale_fields.push(FieldValue { name: "amount".to_owned(), value: t.amount.clone() });
        whale_fields.push(
            FieldValue { name: "timestamp".to_owned(), value: u64_to_dec(t.block_time) },
        );
        whale_fields.push(FieldValue { name: "txHash".to_owned(), value: t.tx_hash.clone() });
        let whale_mut = EntityMutation {
            entity: EntityType::WhaleTransfer,
            id,
            ordinal: t.log_index,
            op: Operation::Create,
            fields: whale_fields,
        };
        let ghost before = r.deep_view();
        proof {
            assert(whale_mut.fields.deep_view() =~= spec_whale_mut(wsv[j as int], token).fields);
            assert(whale_mut@ == spec_whale_mut(wsv[j as int], token));
        }
        r.push(whale_mut);
        proof {
            assert(r.deep_view() =~= before.push(spec_whale_mut(wsv[j as int], token)));
            assert(wsv.take(j + 1).drop_last() =~= wsv.take(j as int));
            assert(wsv.take(j + 1).last() == wsv[j as int]);
            assert(r.deep_view() =~= phase1 + spec_whale_phase(wsv.take(j + 1), token));
        }
        j += 1;
    }
    proof {
        assert(wsv.take(wsv.len() as int) =~= wsv);
    }
    r
}

/// Determinism: reconciliation is a pure function of its inputs.  Equal
/// deltas, whale transfers and token id yield the identical mutation
/// sequence, field order included.
pub proof fn lemma_reconcile_deterministic(
    ds1: Seq<DeltaV>,
    ws1: Seq<TransferV>,
    t1: Seq<char>,
    ds2: Seq<DeltaV>,
    ws2: Seq<TransferV>,
    t2: Seq<char>,
)
    requires
        ds1 == ds2,
        ws1 == ws2,
        t1 == t2,
    ensures
        spec_reconcile(ds1, ws1, t1) == spec_reconcile(ds2, ws2, t2),
{
}

/// Phase one never emits a WhaleTransfer mutation.
pub proof fn lemma_wallet_phase_kinds(ds: Seq<DeltaV>, token: Seq<char>)
    ensures
        forall|i: int|
            0 <= i < spec_wallet_phase(ds, token).len() ==> (#[trigger] spec_wallet_phase(
                ds,
                token,
            )[i]).entity != EntityType::WhaleTransfer,
    decreases ds.len(),
{
    if ds.len() > 0 {
        lemma_wallet_phase_kinds(ds.drop_last(), token);
    }
}

/// Phase two emits only WhaleTransfer mutations.
pub proof fn lemma_whale_phase_kinds(ws: Seq<TransferV>, token: Seq<char>)
    ensures
        forall|i: int|
            0 <= i < spec_whale_phase(ws, token).len() ==> (#[trigger] spec_whale_phase(
                ws,
                token,
            )[i]).entity == EntityType::WhaleTransfer,
    decreases ws.len(),
{
    if ws.len() > 0 {
        lemma_whale_phase_kinds(ws.drop_last(), token);
    }
}

/// Ordering invariant: in the reconciler's output every Wallet or Token
/// mutation precedes every WhaleTransfer mutation -- once a WhaleTransfer
/// appears, everything after it is a WhaleTransfer.  Within each phase the
/// construction preserves the input sequence's order.
pub proof fn lemma_phase_order(ds: Seq<DeltaV>, ws: Seq<TransferV>, token: Seq<char>)
    ensures
        forall|i: int, j: int|
            #![trigger spec_reconcile(ds, ws, token)[i], spec_reconcile(ds, ws, token)[j]]
            0 <= i < j < spec_reconcile(ds, ws, token).len() && spec_reconcile(
                ds,
                ws,
                token,
            )[i].entity == EntityType::WhaleTransfer ==> spec_reconcile(ds, ws, token)[j].entity
                == EntityType::WhaleTransfer,
{
    lemma_wallet_phase_kinds(ds, token);
    lemma_whale_phase_kinds(ws, token);
    let wp = spec_wallet_phase(ds, token);
    let hp = spec_whale_phase(ws, token);
    let out = spec_reconcile(ds, ws, token);
    assert forall|i: int, j: int|
        0 <= i < j < out.len() && (#[trigger] out[i]).entity == EntityType::WhaleTransfer
        implies (#[trigger] out[j]).entity == EntityType::WhaleTransfer by {
        if i < wp.len() {
            assert(out[i] == wp[i]);
            assert(false);
        }
        assert(out[j] == hp[j - wp.len()]);
    }
}

/// Within phase two the input order is kept one-to-one: mutation `j` is
/// exactly the creation for whale transfer `j`.
pub proof fn lemma_whale_phase_order(ws: Seq<TransferV>, token: Seq<char>)
    ensures
        spec_whale_phase(ws, token).len() == ws.len(),
        forall|j: int|
            0 <= j < ws.len() ==> #[trigger] spec_whale_phase(ws, token)[j] == spec_whale_mut(
                ws[j],
                token,
            ),
    decreases ws.len(),
{
    if ws.len() > 0 {
        let rest = ws.drop_last();
        lemma_whale_phase_order(rest, token);
        assert(forall|k: int| 0 <= k < rest.len() ==> #[trigger] rest[k] == ws[k]);
    }
}

/// Idempotence of a no-movement delta: when old and new values agree -- as
/// they do for an address touched only by zero-amount transfers -- the delta
/// emits its Wallet mutation and no Token mutation.
pub proof fn lemma_unchanged_delta_no_token_mut(d: DeltaV, token: Seq<char>)
    requires
        val_or_zero(d.old_value) == val_or_zero(d.new_value),
    ensures
        spec_delta_muts(d, token) == seq![spec_wallet_mut(d, token)],
{
}

} // verus!
