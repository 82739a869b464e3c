use luckyprotocol_indexer::indexer::{
    mask_secrets, now_unix, outpoint_key, unix_seconds, BetStatus, EntryRef, IndexerState, Network,
    TxContext, MAX_BETS_VEC, MAX_DEPLOYS_VEC,
};
use luckyprotocol_indexer::protocol::{ProtocolPayload, PROJECT_FEE_ADDRESS};

const HEIGHT: u32 = 950_950;
// Ends in 7: die 2, so even wins; bronze 7, silver a7, gold 3a7.
const HASH: &str = "000000000000000000000000000000000000000000000000000000000003a7";

struct Tx {
    txid: String,
    height: u32,
    spent: Vec<(String, u32)>,
    op_returns: Vec<u32>,
    addresses: Vec<Option<String>>,
    values: Vec<u64>,
}

/// Output 0 is an `OP_RETURN`, output 1 pays `fee` to the project, output 2 goes to alice,
/// output 3 to bob, output 4 has no address.
fn tx(txid: &str, fee: u64, spent: &[(&str, u32)]) -> Tx {
    Tx {
        txid: txid.to_string(),
        height: HEIGHT,
        spent: spent.iter().map(|(t, v)| (t.to_string(), *v)).collect(),
        op_returns: vec![0],
        addresses: vec![
            None,
            Some(PROJECT_FEE_ADDRESS.to_string()),
            Some("alice".to_string()),
            Some("bob".to_string()),
            None,
        ],
        values: vec![0, fee, 1000, 1000, 1000],
    }
}

fn apply(s: &mut IndexerState, t: &Tx, payload: Option<ProtocolPayload>) -> bool {
    s.apply_tx(
        TxContext {
            txid: &t.txid,
            block_height: t.height,
            block_hash: HASH,
            sender: "carol",
            spent_outpoints: &t.spent,
            vout_count: t.values.len() as u32,
            op_return_vouts: &t.op_returns,
            vout_addresses: &t.addresses,
            vout_values: &t.values,
        },
        payload,
    )
}

fn state() -> IndexerState {
    IndexerState::new(Network::Bitcoin, String::new())
}

fn deploy(ticker: &str) -> Option<ProtocolPayload> {
    Some(ProtocolPayload::Deploy { ticker: ticker.to_string() })
}

fn bet(tier: &str, pick: &str, ticker: &str, win: u32, change: Option<u32>) -> Option<ProtocolPayload> {
    Some(ProtocolPayload::Bet {
        tier: tier.to_string(),
        pick: pick.to_string(),
        ticker: ticker.to_string(),
        win_out_idx: win,
        change_out_idx: change,
    })
}

fn send(ticker: &str, amount: u64, to: u32, change: Option<u32>) -> Option<ProtocolPayload> {
    Some(ProtocolPayload::Xfer {
        ticker: ticker.to_string(),
        amount,
        to_out_idx: to,
        change_out_idx: change,
    })
}

/// A state with ticker LUCKY deployed and 200,000 of it won by alice on output `w1:2`.
fn won() -> IndexerState {
    let mut s = state();
    assert!(apply(&mut s, &tx("d1", 5_460, &[]), deploy("LUCKY")));
    assert!(apply(&mut s, &tx("w1", 546, &[]), bet("gold", "3A7", "LUCKY", 2, None)));
    s
}

fn amount(s: &IndexerState, txid: &str, vout: u32, ticker: &str) -> Option<u64> {
    s.utxo_balance(txid, vout).and_then(|e| e.balances.get(ticker).copied())
}

#[test]
fn outpoint_keys_are_lower_case() {
    assert_eq!(outpoint_key("ABcd", 0), "abcd:0");
    assert_eq!(outpoint_key("abcd", 4294967295), "abcd:4294967295");
    assert_eq!(outpoint_key("", 10), ":10");
    assert_ne!(outpoint_key("ab", 11), outpoint_key("ab", 1));
}

#[test]
fn keys_in_urls_are_masked() {
    let url = "https://bitcoin-mainnet.g.alchemy.com/v2/abc123/tip?x=1";
    let masked = "https://bitcoin-mainnet.g.alchemy.com/v2/<KEY-REDACTED>/tip?x=1";
    assert_eq!(mask_secrets(url), masked);
    assert_eq!(mask_secrets(masked), masked);
    assert_eq!(mask_secrets("x alchemy.com/v2/key"), "x alchemy.com/v2/<KEY-REDACTED>");
    assert_eq!(mask_secrets("alchemy.com/v2/"), "alchemy.com/v2/<KEY-REDACTED>");
    assert_eq!(mask_secrets("http://127.0.0.1:8332/"), "http://127.0.0.1:8332/");
    assert_eq!(mask_secrets(""), "");
}

#[test]
fn the_clock_is_past_the_epoch() {
    assert_eq!(unix_seconds(Some(17)), 17);
    assert_eq!(unix_seconds(None), 0);
    assert!(now_unix() > 1_600_000_000);
}

#[test]
fn nothing_happens_before_activation() {
    let mut s = state();
    let mut t = tx("d1", 5_460, &[]);
    t.height = HEIGHT - 1;
    assert!(!apply(&mut s, &t, deploy("LUCKY")));
    assert!(s.tokens.is_empty());
    assert_eq!(s.deploys.len(), 0);
    t.height = HEIGHT;
    assert!(apply(&mut s, &t, deploy("LUCKY")));
    assert!(s.tokens.contains_key("LUCKY"));
}

#[test]
fn a_deployment_registers_its_ticker_once() {
    let mut s = state();
    assert!(apply(&mut s, &tx("d1", 5_460, &[]), deploy("LUCKY")));
    assert!(apply(&mut s, &tx("d2", 5_460, &[]), deploy("LUCKY")));
    let t = s.tokens.get("LUCKY").unwrap();
    assert_eq!(t.deploy_txid, "d1");
    assert_eq!(t.deployer, "carol");
    assert_eq!(t.supply, 21_000_000);
    assert_eq!(t.minted, 0);
    assert_eq!(t.deploy_block, HEIGHT);
    assert_eq!(s.deploys.len(), 2);
    assert!(s.deploys[0].applied);
    assert!(!s.deploys[1].applied);
    assert_eq!(s.deploys[1].supply, 21_000_000);
    assert_eq!(s.utxo_balances.len(), 0);
}

#[test]
fn a_deployment_pays_the_exact_fee() {
    let mut s = state();
    for (i, fee) in [0u64, 546, 5_459, 5_461].iter().enumerate() {
        let txid = format!("d{}", i);
        assert!(apply(&mut s, &tx(&txid, *fee, &[]), deploy("LUCKY")));
        assert!(!s.deploys[i].applied);
    }
    assert!(s.tokens.is_empty());
    let mut elsewhere = tx("d9", 5_460, &[]);
    elsewhere.addresses[1] = Some("mallory".to_string());
    assert!(apply(&mut s, &elsewhere, deploy("LUCKY")));
    assert!(s.tokens.is_empty());
}

#[test]
fn a_winning_wager_mints_its_reward() {
    let s = won();
    assert_eq!(amount(&s, "W1", 2, "LUCKY"), Some(200_000));
    assert_eq!(s.tokens.get("LUCKY").unwrap().minted, 200_000);
    let b = &s.bets[0];
    assert_eq!(b.status, BetStatus::Settled);
    assert_eq!(b.win, Some(true));
    assert_eq!(b.reward_smallest, 200_000);
    assert!(!b.cap_exhausted);
    assert_eq!(b.sender, "carol");
    assert_eq!(b.pick, "3A7");
    assert_eq!(s.total_minted_in_utxos("LUCKY"), 200_000);
    assert_eq!(s.address_balances("alice").get("LUCKY"), Some(&200_000));
    assert!(s.address_balances("bob").is_empty());
}

#[test]
fn a_losing_wager_is_settled_without_reward() {
    let mut s = won();
    assert!(apply(&mut s, &tx("b2", 546, &[]), bet("iron", "odd", "LUCKY", 2, None)));
    assert_eq!(s.bets[1].status, BetStatus::Settled);
    assert_eq!(s.bets[1].win, Some(false));
    assert_eq!(s.bets[1].reward_smallest, 0);
    assert!(!s.bets[1].cap_exhausted);
    assert!(s.utxo_balance("b2", 2).is_none());
}

#[test]
fn wagers_that_do_not_count_are_invalid() {
    let mut s = won();
    assert!(apply(&mut s, &tx("b2", 546, &[]), bet("gold", "3a7", "OTHER", 2, None)));
    assert!(apply(&mut s, &tx("b3", 546, &[]), bet("gold", "3a7", "LUCKY", 0, None)));
    assert!(apply(&mut s, &tx("b4", 546, &[]), bet("gold", "3a7", "LUCKY", 5, None)));
    assert!(apply(&mut s, &tx("b5", 547, &[]), bet("gold", "3a7", "LUCKY", 2, None)));
    for i in 1..5 {
        assert_eq!(s.bets[i].status, BetStatus::Invalid);
        assert_eq!(s.bets[i].win, None);
        assert_eq!(s.bets[i].reward_smallest, 0);
    }
    assert_eq!(s.tokens.get("LUCKY").unwrap().minted, 200_000);
    assert_eq!(s.utxo_balances.len(), 1);
}

#[test]
fn the_supply_is_never_exceeded() {
    let mut s = won();
    for i in 0..104 {
        let txid = format!("w{}", i + 2);
        assert!(apply(&mut s, &tx(&txid, 546, &[]), bet("gold", "3a7", "LUCKY", 2, None)));
    }
    assert_eq!(s.tokens.get("LUCKY").unwrap().minted, 21_000_000);
    assert_eq!(s.total_minted_in_utxos("LUCKY"), 21_000_000);
    assert!(apply(&mut s, &tx("late", 546, &[]), bet("gold", "3a7", "LUCKY", 2, None)));
    let b = s.bets.back().unwrap();
    assert_eq!(b.status, BetStatus::Settled);
    assert_eq!(b.win, Some(false));
    assert!(b.cap_exhausted);
    assert!(s.utxo_balance("late", 2).is_none());
    assert_eq!(s.total_minted_in_utxos("LUCKY"), 21_000_000);
}

#[test]
fn the_last_reward_is_cut_to_what_is_left() {
    let mut s = won();
    let mut t = s.tokens.remove("LUCKY").unwrap();
    t.minted = 20_999_950;
    s.tokens.insert("LUCKY".to_string(), t);
    assert!(apply(&mut s, &tx("w2", 546, &[]), bet("iron", "even", "LUCKY", 3, None)));
    assert_eq!(amount(&s, "w2", 3, "LUCKY"), Some(50));
    assert_eq!(s.bets[1].reward_smallest, 50);
    assert_eq!(s.tokens.get("LUCKY").unwrap().minted, 21_000_000);
}

#[test]
fn a_transfer_moves_tokens_and_keeps_change() {
    let mut s = won();
    assert!(apply(&mut s, &tx("s1", 546, &[("W1", 2)]), send("LUCKY", 150, 3, Some(2))));
    assert!(s.utxo_balance("w1", 2).is_none());
    assert_eq!(amount(&s, "s1", 3, "LUCKY"), Some(150));
    assert_eq!(amount(&s, "s1", 2, "LUCKY"), Some(199_850));
    assert!(s.transfers[0].applied);
    assert_eq!(s.total_minted_in_utxos("LUCKY"), 200_000);
    assert_eq!(s.address_balances("bob").get("LUCKY"), Some(&150));
    assert_eq!(s.address_balances("alice").get("LUCKY"), Some(&199_850));
    assert_eq!(s.address_utxos.get("alice").unwrap().len(), 1);
}

#[test]
fn a_transfer_of_everything_leaves_no_change() {
    let mut s = won();
    assert!(apply(&mut s, &tx("s1", 546, &[("w1", 2)]), send("LUCKY", 200_000, 3, Some(2))));
    assert_eq!(amount(&s, "s1", 3, "LUCKY"), Some(200_000));
    assert!(s.utxo_balance("s1", 2).is_none());
    assert!(s.address_utxos.get("alice").is_none());
}

#[test]
fn a_residual_without_change_is_burned() {
    for change in [None, Some(0u32), Some(9)] {
        let mut s = won();
        assert!(apply(&mut s, &tx("s1", 546, &[("w1", 2)]), send("LUCKY", 150, 3, change)));
        assert_eq!(s.total_minted_in_utxos("LUCKY"), 150);
        assert_eq!(s.tokens.get("LUCKY").unwrap().minted, 200_000);
        assert_eq!(s.utxo_balances.len(), 1);
    }
}

#[test]
fn a_refused_transfer_returns_its_tokens_to_the_change_output() {
    // Not enough, no fee, no such output.
    for (amt, fee, to) in [(200_001u64, 546u64, 3u32), (10, 545, 3), (10, 546, 0)] {
        let mut s = won();
        assert!(apply(&mut s, &tx("s1", fee, &[("w1", 2)]), send("LUCKY", amt, to, Some(4))));
        assert!(!s.transfers[0].applied);
        assert_eq!(amount(&s, "s1", 4, "LUCKY"), Some(200_000));
        assert_eq!(s.utxo_balances.len(), 1);
        assert!(s.address_utxos.is_empty());
    }
}

#[test]
fn a_wager_keeps_spent_tokens_only_with_change() {
    let mut s = won();
    assert!(apply(&mut s, &tx("w2", 546, &[("w1", 2)]), bet("bronze", "7", "LUCKY", 2, Some(2))));
    assert_eq!(amount(&s, "w2", 2, "LUCKY"), Some(201_000));
    assert!(apply(&mut s, &tx("w3", 546, &[("w2", 2)]), bet("bronze", "7", "LUCKY", 2, None)));
    assert_eq!(amount(&s, "w3", 2, "LUCKY"), Some(1_000));
    assert_eq!(s.total_minted_in_utxos("LUCKY"), 1_000);
    assert_eq!(s.tokens.get("LUCKY").unwrap().minted, 202_000);
}

#[test]
fn a_plain_spend_burns() {
    let mut s = won();
    assert!(apply(&mut s, &tx("p1", 0, &[("w1", 2)]), None));
    assert_eq!(s.utxo_balances.len(), 0);
    assert!(s.address_utxos.is_empty());
    assert_eq!(s.total_minted_in_utxos("LUCKY"), 0);
}

#[test]
fn a_deployment_burns_what_it_spends() {
    let mut s = won();
    assert!(apply(&mut s, &tx("d2", 5_460, &[("w1", 2)]), deploy("OTHER")));
    assert!(s.tokens.contains_key("OTHER"));
    assert_eq!(s.utxo_balances.len(), 0);
}

#[test]
fn mixed_inputs_void_the_transaction() {
    let mut base = won();
    assert!(apply(&mut base, &tx("d2", 5_460, &[]), deploy("OTHER")));
    assert!(apply(&mut base, &tx("w2", 546, &[]), bet("bronze", "7", "OTHER", 3, None)));
    let both: &[(&str, u32)] = &[("w1", 2), ("w2", 3)];
    let snap = base.take_snapshot();

    assert!(apply(&mut base, &tx("s1", 546, both), send("LUCKY", 5, 3, Some(2))));
    assert!(!base.transfers[0].applied);
    assert_eq!(base.utxo_balances.len(), 0);

    base.restore_from_snapshot(snap.clone());
    assert!(apply(&mut base, &tx("b1", 546, both), bet("bronze", "7", "LUCKY", 2, Some(3))));
    assert_eq!(base.bets.back().unwrap().status, BetStatus::Invalid);
    assert_eq!(base.utxo_balances.len(), 0);
    assert_eq!(base.tokens.get("LUCKY").unwrap().minted, 200_000);

    base.restore_from_snapshot(snap);
    assert!(apply(&mut base, &tx("d3", 5_460, both), deploy("THIRD")));
    assert!(!base.deploys.back().unwrap().applied);
    assert!(!base.tokens.contains_key("THIRD"));
    assert_eq!(base.utxo_balances.len(), 0);
}

#[test]
fn a_transaction_without_tokens_or_payload_reports_no_change() {
    let mut s = won();
    assert!(!apply(&mut s, &tx("x1", 546, &[("unknown", 0)]), None));
    assert_eq!(s.utxo_balances.len(), 1);
}

#[test]
fn a_transaction_that_comes_again_changes_nothing() {
    let mut s = won();
    let t = tx("s1", 546, &[("w1", 2)]);
    assert!(apply(&mut s, &t, send("LUCKY", 150, 3, Some(2))));
    assert!(!apply(&mut s, &t, send("LUCKY", 150, 3, Some(2))));
    assert_eq!(s.transfers.len(), 1);
    assert_eq!(amount(&s, "s1", 3, "LUCKY"), Some(150));
    assert_eq!(s.total_minted_in_utxos("LUCKY"), 200_000);
}

#[test]
fn entries_are_found_by_transaction() {
    let mut s = won();
    assert!(apply(&mut s, &tx("s1", 546, &[("w1", 2)]), send("LUCKY", 150, 3, Some(2))));
    assert_eq!(s.by_txid.get("d1"), Some(&EntryRef::Deploy { idx: 0 }));
    assert_eq!(s.by_txid.get("w1"), Some(&EntryRef::Bet { idx: 0 }));
    assert_eq!(s.by_txid.get("s1"), Some(&EntryRef::Transfer { idx: 0 }));
    assert_eq!(s.resolve_bet_idx(0).unwrap().txid, "w1");
    assert_eq!(s.resolve_transfer_idx(0).unwrap().txid, "s1");
    assert_eq!(s.resolve_deploy_idx(0).unwrap().txid, "d1");
    assert!(s.resolve_bet_idx(1).is_none());
}

#[test]
fn full_logs_drop_their_oldest_entries() {
    let mut s = state();
    assert!(apply(&mut s, &tx("d0", 5_460, &[]), deploy("LUCKY")));
    for i in 1..(MAX_DEPLOYS_VEC + 3) {
        let txid = format!("d{}", i);
        apply(&mut s, &tx(&txid, 0, &[]), deploy("LUCKY"));
    }
    assert_eq!(s.deploys.len(), MAX_DEPLOYS_VEC);
    assert_eq!(s.deploy_offset, 3);
    assert!(!s.by_txid.contains_key("d2"));
    assert_eq!(s.by_txid.get("d3"), Some(&EntryRef::Deploy { idx: 3 }));
    assert!(s.resolve_deploy_idx(2).is_none());
    assert_eq!(s.resolve_deploy_idx(3).unwrap().txid, "d3");
    let last = (MAX_DEPLOYS_VEC + 2) as u64;
    assert_eq!(s.resolve_deploy_idx(last).unwrap().txid, format!("d{}", last));
    assert!(s.tokens.contains_key("LUCKY"));
    assert_eq!(MAX_BETS_VEC, 100_000);
}

#[test]
fn the_first_usable_output_is_the_default() {
    let t = tx("x", 0, &[]);
    let ctx = TxContext {
        txid: &t.txid,
        block_height: HEIGHT,
        block_hash: HASH,
        sender: "",
        spent_outpoints: &t.spent,
        vout_count: 2,
        op_return_vouts: &t.op_returns,
        vout_addresses: &t.addresses,
        vout_values: &t.values,
    };
    assert_eq!(IndexerState::default_out_idx(&ctx, None), Some(1));
    assert_eq!(IndexerState::default_out_idx(&ctx, Some(1)), Some(1));
    assert_eq!(IndexerState::validate_out_idx(&ctx, 0), None);
    assert_eq!(IndexerState::validate_out_idx(&ctx, 1), Some(1));
    assert_eq!(IndexerState::validate_out_idx(&ctx, 2), None);
    assert!(!IndexerState::has_exact_project_fee(&ctx, 546));
    assert!(IndexerState::has_exact_project_fee(&ctx, 0));
}

#[test]
fn a_reward_and_the_change_can_share_an_output() {
    let mut s = won();
    let t = tx("w2", 546, &[("w1", 2)]);
    assert!(apply(&mut s, &t, bet("bronze", "7", "LUCKY", 3, Some(3))));
    assert_eq!(amount(&s, "w2", 3, "LUCKY"), Some(201_000));
    assert_eq!(s.tokens.get("LUCKY").map(|t| t.minted), Some(201_000));
    assert!(s.utxo_balance("w1", 2).is_none());
}

#[test]
fn an_unpaid_fee_keeps_the_registry_and_returns_the_pool() {
    let mut s = won();
    let t = tx("w2", 547, &[("w1", 2)]);
    assert!(apply(&mut s, &t, bet("bronze", "7", "LUCKY", 2, Some(3))));
    assert_eq!(amount(&s, "w2", 2, "LUCKY"), None);
    assert_eq!(amount(&s, "w2", 3, "LUCKY"), Some(200_000));
    assert_eq!(s.tokens.get("LUCKY").map(|t| t.minted), Some(200_000));
    assert_eq!(s.bets.back().map(|b| b.status == BetStatus::Invalid), Some(true));
    let held = s.address_balances("bob");
    assert_eq!(held.get("LUCKY").copied(), Some(200_000));
    assert!(s.address_balances("alice").get("LUCKY").is_none());
}

#[test]
fn older_wagers_keep_their_numbers() {
    let mut s = won();
    let first = s.bets[0].clone();
    let mut second = s.bets[0].clone();
    second.txid = "w9".to_string();
    assert_eq!(s.push_bet(second), 1);
    assert_eq!(s.resolve_bet_idx(0), Some(&first));
    assert_eq!(s.resolve_bet_idx(1).unwrap().txid, "w9");
    while s.bets.len() < MAX_BETS_VEC {
        let mut b = first.clone();
        b.txid = String::new();
        s.push_bet(b);
    }
    assert!(s.by_txid.contains_key("w1"));
    let mut last = first.clone();
    last.txid = "w10".to_string();
    assert_eq!(s.push_bet(last), MAX_BETS_VEC as u64);
    assert_eq!(s.bets.len(), MAX_BETS_VEC);
    assert!(s.resolve_bet_idx(0).is_none());
    assert_eq!(s.resolve_bet_idx(1).unwrap().txid, "w9");
    assert_eq!(s.resolve_bet_idx(MAX_BETS_VEC as u64).unwrap().txid, "w10");
    assert!(!s.by_txid.contains_key("w1"));
    assert!(s.by_txid.contains_key("d1"));
}
