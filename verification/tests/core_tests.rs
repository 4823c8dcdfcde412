use tokenomics::ledger::BalanceLedger;
use tokenomics::pipeline::PipelineConfig;
use tokenomics::pipeline::process_block;
use tokenomics::reconcile::reconcile;
use tokenomics::records::EntityMutation;
use tokenomics::records::EntityType;
use tokenomics::records::Operation;
use tokenomics::records::TransferRecord;
use tokenomics::whale::filter_whales;

const TOKEN_ID: &str = "1f9840a85d5af5bf1d1762f925bdaddc4201f984";
const THRESHOLD: &str = "10000000000000000000000";

fn transfer(tx: &str, idx: u64, from: &str, to: &str, amount: &str) -> TransferRecord {
    TransferRecord {
        tx_hash: tx.to_string(),
        log_index: idx,
        block_number: 12345,
        block_time: 1620000000,
        from: from.to_string(),
        to: to.to_string(),
        amount: amount.to_string(),
    }
}

fn config() -> PipelineConfig {
    PipelineConfig { token_id: TOKEN_ID.to_string(), whale_threshold: THRESHOLD.to_string() }
}

fn field<'a>(m: &'a EntityMutation, name: &str) -> &'a str {
    for f in &m.fields {
        if f.name == name {
            return &f.value;
        }
    }
    panic!("no field named {}", name);
}

#[test]
fn whale_scenario_25000_tokens() {
    let mut ledger = BalanceLedger::new();
    let a = "aaaa000000000000000000000000000000000001".to_string();
    let b = "bbbb000000000000000000000000000000000002".to_string();
    ledger.set_balance(&a, "30000000000000000000000".to_string());
    let transfers = vec![transfer("0xhash1", 7, &a, &b, "25000000000000000000000")];
    let (deltas, whales, muts) = process_block(&mut ledger, &transfers, &config());

    assert_eq!(deltas.len(), 2);
    assert_eq!(deltas[0].address, a);
    assert_eq!(deltas[0].old_value, "30000000000000000000000");
    assert_eq!(deltas[0].new_value, "5000000000000000000000");
    assert_eq!(deltas[0].ordinal, 0);
    assert_eq!(deltas[0].op, Operation::Update);
    assert_eq!(deltas[1].address, b);
    assert_eq!(deltas[1].old_value, "0");
    assert_eq!(deltas[1].new_value, "25000000000000000000000");
    assert_eq!(deltas[1].ordinal, 1);
    assert_eq!(deltas[1].op, Operation::Create);

    assert_eq!(whales.len(), 1);
    assert_eq!(whales[0].amount, "25000000000000000000000");

    assert_eq!(muts.len(), 5);
    assert_eq!(muts[0].entity, EntityType::Wallet);
    assert_eq!(muts[0].id, a);
    assert_eq!(field(&muts[0], "balance"), "5000000000000000000000");
    assert_eq!(field(&muts[0], "token"), TOKEN_ID);
    assert_eq!(muts[1].entity, EntityType::Token);
    assert_eq!(field(&muts[1], "circulatingSupply"), "-25000000000000000000000");
    assert_eq!(muts[2].entity, EntityType::Wallet);
    assert_eq!(muts[2].id, b);
    assert_eq!(field(&muts[2], "balance"), "25000000000000000000000");
    assert_eq!(muts[3].entity, EntityType::Token);
    assert_eq!(field(&muts[3], "circulatingSupply"), "25000000000000000000000");
    assert_eq!(muts[4].entity, EntityType::WhaleTransfer);
    assert_eq!(muts[4].id, "0xhash1-7");
    assert_eq!(muts[4].ordinal, 7);
    assert_eq!(muts[4].op, Operation::Create);
    assert_eq!(field(&muts[4], "fromWallet"), a);
    assert_eq!(field(&muts[4], "toWallet"), b);
    assert_eq!(field(&muts[4], "amount"), "25000000000000000000000");
    assert_eq!(field(&muts[4], "timestamp"), "1620000000");
    assert_eq!(field(&muts[4], "txHash"), "0xhash1");

    // The updated ledger keeps the canonical new balances.
    assert_eq!(ledger.balance_of(&a), Some("5000000000000000000000".to_string()));
    assert_eq!(ledger.balance_of(&b), Some("25000000000000000000000".to_string()));
}

#[test]
fn malformed_amount_scenario() {
    let mut ledger = BalanceLedger::new();
    let a = "aaaa000000000000000000000000000000000001".to_string();
    ledger.set_balance(&a, "42".to_string());
    let transfers = vec![transfer("0xbad", 1, &a, "bbbb", "not-a-number")];
    let (deltas, whales, muts) = process_block(&mut ledger, &transfers, &config());

    // Zero contribution for both touched addresses.
    assert_eq!(deltas.len(), 2);
    assert_eq!(deltas[0].old_value, "42");
    assert_eq!(deltas[0].new_value, "42");
    assert_eq!(deltas[1].old_value, "0");
    assert_eq!(deltas[1].new_value, "0");
    // Excluded by the whale filter.
    assert_eq!(whales.len(), 0);
    // Wallet updates only: no Token mutation, no WhaleTransfer.
    assert_eq!(muts.len(), 2);
    assert!(muts.iter().all(|m| m.entity == EntityType::Wallet));
}

#[test]
fn whale_threshold_boundary() {
    let at = transfer("0xt", 0, "a", "b", "10000000000000000000000");
    let below = transfer("0xt", 1, "a", "b", "9999999999999999999999");
    let transfers = vec![at, below];
    let kept = filter_whales(&transfers, THRESHOLD);
    assert_eq!(kept.len(), 1);
    assert_eq!(kept[0].log_index, 0);
    assert_eq!(kept[0].amount, "10000000000000000000000");
}

#[test]
fn malformed_compares_as_zero_with_zero_threshold() {
    let transfers = vec![transfer("0xt", 0, "a", "b", "junk")];
    let kept = filter_whales(&transfers, "0");
    // A malformed amount reads as zero, and zero meets a zero threshold.
    assert_eq!(kept.len(), 1);
    let none = filter_whales(&transfers, "1");
    assert_eq!(none.len(), 0);
}

#[test]
fn reconcile_deterministic() {
    let mut ledger1 = BalanceLedger::new();
    let transfers = vec![
        transfer("0xa", 3, "w1", "w2", "25000000000000000000000"),
        transfer("0xb", 9, "w2", "w3", "125"),
    ];
    let deltas = ledger1.apply_block(&transfers);
    let whales = filter_whales(&transfers, THRESHOLD);
    let token = TOKEN_ID.to_string();
    let first = reconcile(&deltas, &whales, &token);
    let second = reconcile(&deltas, &whales, &token);
    assert_eq!(first, second);
    // Field order is part of the output.
    assert_eq!(first[0].fields[0].name, "balance");
    assert_eq!(first[0].fields[1].name, "token");
}

#[test]
fn conservation_small_block() {
    let mut ledger = BalanceLedger::new();
    let a = "a1".to_string();
    ledger.set_balance(&a, "100".to_string());
    let transfers = vec![
        transfer("0x1", 0, "a1", "b1", "30"),
        transfer("0x2", 1, "b1", "c1", "10"),
        transfer("0x3", 2, "a1", "c1", "junk"),
    ];
    let deltas = ledger.apply_block(&transfers);
    let mut sum: i64 = 0;
    for d in &deltas {
        let old: i64 = d.old_value.parse().unwrap();
        let new: i64 = d.new_value.parse().unwrap();
        sum += new - old;
    }
    assert_eq!(sum, 0);
}

#[test]
fn mutation_phase_order() {
    let mut ledger = BalanceLedger::new();
    let transfers = vec![
        transfer("0xa", 0, "w1", "w2", "25000000000000000000000"),
        transfer("0xb", 1, "w3", "w4", "11000000000000000000000"),
    ];
    let (_, _, muts) = process_block(&mut ledger, &transfers, &config());
    let first_whale = muts
        .iter()
        .position(|m| m.entity == EntityType::WhaleTransfer)
        .expect("expected whale mutations");
    for (i, m) in muts.iter().enumerate() {
        if i < first_whale {
            assert_ne!(m.entity, EntityType::WhaleTransfer);
        } else {
            assert_eq!(m.entity, EntityType::WhaleTransfer);
        }
    }
    // Within the whale phase, log-ordinal order is preserved.
    assert_eq!(muts[first_whale].id, "0xa-0");
    assert_eq!(muts[first_whale + 1].id, "0xb-1");
}

#[test]
fn zero_amount_transfer_is_idempotent() {
    let mut ledger = BalanceLedger::new();
    let a = "a1".to_string();
    ledger.set_balance(&a, "55".to_string());
    let transfers = vec![transfer("0x1", 0, "a1", "b1", "0")];
    let (deltas, _, muts) = process_block(&mut ledger, &transfers, &config());
    assert_eq!(deltas.len(), 2);
    assert_eq!(deltas[0].old_value, "55");
    assert_eq!(deltas[0].new_value, "55");
    assert_eq!(deltas[1].old_value, "0");
    assert_eq!(deltas[1].new_value, "0");
    // A zero-amount transfer still marks both addresses as touched, but
    // contributes no Token mutation.
    assert_eq!(muts.len(), 2);
    assert!(muts.iter().all(|m| m.entity == EntityType::Wallet));
}

#[test]
fn empty_block_is_valid() {
    let mut ledger = BalanceLedger::new();
    let transfers: Vec<TransferRecord> = vec![];
    let (deltas, whales, muts) = process_block(&mut ledger, &transfers, &config());
    assert_eq!(deltas.len(), 0);
    assert_eq!(whales.len(), 0);
    assert_eq!(muts.len(), 0);
}

#[test]
fn repeated_address_yields_one_net_delta() {
    let mut ledger = BalanceLedger::new();
    let transfers = vec![
        transfer("0x1", 0, "a1", "b1", "10"),
        transfer("0x2", 1, "a1", "b1", "5"),
        transfer("0x3", 2, "b1", "a1", "3"),
    ];
    let deltas = ledger.apply_block(&transfers);
    assert_eq!(deltas.len(), 2);
    assert_eq!(deltas[0].address, "a1");
    assert_eq!(deltas[0].new_value, "-12");
    assert_eq!(deltas[1].address, "b1");
    assert_eq!(deltas[1].new_value, "12");
}

#[test]
fn sender_balance_can_go_negative() {
    let mut ledger = BalanceLedger::new();
    let transfers = vec![transfer("0x1", 0, "a1", "b1", "7")];
    let deltas = ledger.apply_block(&transfers);
    assert_eq!(deltas[0].old_value, "0");
    assert_eq!(deltas[0].new_value, "-7");
    assert_eq!(ledger.balance_of(&"a1".to_string()), Some("-7".to_string()));
}

#[test]
fn self_transfer_changes_nothing() {
    let mut ledger = BalanceLedger::new();
    let a = "a1".to_string();
    ledger.set_balance(&a, "9".to_string());
    let transfers = vec![transfer("0x1", 0, "a1", "a1", "4")];
    let (deltas, _, muts) = process_block(&mut ledger, &transfers, &config());
    assert_eq!(deltas.len(), 1);
    assert_eq!(deltas[0].old_value, "9");
    assert_eq!(deltas[0].new_value, "9");
    assert_eq!(muts.len(), 1);
    assert_eq!(muts[0].entity, EntityType::Wallet);
}

#[test]
fn balances_accumulate_across_blocks() {
    let mut ledger = BalanceLedger::new();
    let first = vec![transfer("0x1", 0, "a1", "b1", "10")];
    let second = vec![transfer("0x2", 0, "c1", "b1", "200")];
    ledger.apply_block(&first);
    let deltas = ledger.apply_block(&second);
    assert_eq!(deltas.len(), 2);
    assert_eq!(deltas[0].address, "c1");
    assert_eq!(deltas[1].address, "b1");
    assert_eq!(deltas[1].old_value, "10");
    assert_eq!(deltas[1].new_value, "210");
}

#[test]
fn malformed_amounts_are_countable() {
    let transfers = vec![
        transfer("0x1", 0, "a", "b", "10"),
        transfer("0x2", 1, "a", "b", "not-a-number"),
        transfer("0x3", 2, "a", "b", ""),
        transfer("0x4", 3, "a", "b", "-5"),
        transfer("0x5", 4, "a", "b", "+"),
    ];
    assert_eq!(tokenomics::pipeline::count_malformed_amounts(&transfers), 3);
}

#[test]
fn wallet_ids_and_whale_foreign_keys_share_one_encoding() {
    let mut ledger = BalanceLedger::new();
    let a = "aaaa000000000000000000000000000000000001".to_string();
    let b = "bbbb000000000000000000000000000000000002".to_string();
    let transfers = vec![transfer("0xh", 2, &a, &b, "25000000000000000000000")];
    let (_, _, muts) = process_block(&mut ledger, &transfers, &config());
    let wallet_ids: Vec<&str> = muts
        .iter()
        .filter(|m| m.entity == EntityType::Wallet)
        .map(|m| m.id.as_str())
        .collect();
    let whale = muts.iter().find(|m| m.entity == EntityType::WhaleTransfer).unwrap();
    assert!(wallet_ids.contains(&field(whale, "fromWallet")));
    assert!(wallet_ids.contains(&field(whale, "toWallet")));
}
