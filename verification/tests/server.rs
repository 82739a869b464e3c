use luckyprotocol_indexer::core_rpc::{BlockHeader, RawTxStatus, ScanTxOutEntry, ScanTxOutResult};
use luckyprotocol_indexer::indexer::{
    BetStatus, BetView, DeployView, IndexerState, Network, TokenRegistryEntry, TransferView, UtxoEntry,
};
use luckyprotocol_indexer::server::{
    balances, bet_by_txid, bets_all, bets_for_address, block_error, btc_utxos, count_holders, deploys_all,
    health, poll_now, split_outpoint, token_holders, token_one, tokens_all, transfers_all,
    transfers_for_address, tx_error, tx_status, utxos_for_address, ApiError, LoggedTx,
};
use luckyprotocol_indexer::strmap::{StrMap, StrSet};

fn state() -> IndexerState {
    IndexerState::new(Network::Bitcoin, String::new())
}

fn hold(s: &mut IndexerState, key: &str, address: &str, amounts: &[(&str, u64)]) {
    let mut b = StrMap::new();
    for (t, a) in amounts {
        b.insert(t.to_string(), *a);
    }
    let entry = UtxoEntry { address: Some(address.to_string()), balances: b };
    s.utxo_balances.insert(key.to_string(), entry);
    let mut set = s.address_utxos.remove(address).unwrap_or_else(StrSet::new);
    set.insert(key.to_string());
    s.address_utxos.insert(address.to_string(), set);
}

fn register(s: &mut IndexerState, ticker: &str, block: u32) {
    s.tokens.insert(
        ticker.to_string(),
        TokenRegistryEntry {
            ticker: ticker.to_string(),
            supply: 21_000_000,
            minted: 50,
            deployer: "carol".to_string(),
            deploy_txid: format!("tx-{}", ticker),
            deploy_block: block,
        },
    );
}

fn bet(txid: &str, sender: &str, tier: &str, ticker: &str) -> BetView {
    BetView {
        txid: txid.to_string(),
        block_height: 950_950,
        block_hash: "00".to_string(),
        sender: sender.to_string(),
        tier: tier.to_string(),
        pick: "odd".to_string(),
        ticker: ticker.to_string(),
        win_out_idx: 1,
        change_out_idx: None,
        status: BetStatus::Settled,
        reveal_block_height: None,
        reveal_block_hash: None,
        win: Some(false),
        reward_smallest: 0,
        cap_exhausted: false,
    }
}

fn transfer(txid: &str, sender: &str, ticker: &str, to: u32) -> TransferView {
    TransferView {
        txid: txid.to_string(),
        block_height: 950_950,
        block_hash: "00".to_string(),
        sender: sender.to_string(),
        ticker: ticker.to_string(),
        amount: 5,
        to_out_idx: to,
        change_out_idx: None,
        applied: true,
    }
}

#[test]
fn health_counts_and_judges() {
    let mut s = state();
    hold(&mut s, "a:0", "alice", &[("LUCKY", 5)]);
    hold(&mut s, "a:1", "alice", &[("LUCKY", 6)]);
    register(&mut s, "LUCKY", 950_950);
    s.bets.push_back(bet("b", "x", "iron", "LUCKY"));
    s.indexed_height = 10;
    s.tip_height = 11;
    s.last_progress_at = 1_000;
    let h = health(&s, Some("http://node"), 1_121);
    assert_eq!(h.network, "bitcoin");
    assert_eq!(h.core_url, "http://node");
    assert_eq!((h.indexed_height, h.tip_height), (10, 11));
    assert_eq!((h.address_count, h.utxo_count, h.token_count), (1, 2, 1));
    assert_eq!((h.bet_count, h.transfer_count, h.deploy_count), (1, 0, 0));
    assert_eq!(h.last_progress_at, 1_000);
    assert!(h.stalled);
    assert!(h.recent_errors.is_empty());
    assert!(!health(&s, None, 1_120).stalled);
    assert!(!health(&s, None, 5).stalled);
    s.tip_height = 10;
    assert!(!health(&s, None, 9_999).stalled);
    assert_eq!(health(&s, None, 0).core_url, "");
}

#[test]
fn polls_are_debounced() {
    let a = poll_now(100, 0);
    assert!(a.accepted);
    assert_eq!(a.debounced_for_secs, 0);
    let b = poll_now(102, 100);
    assert!(!b.accepted);
    assert_eq!(b.debounced_for_secs, 1);
    assert!(poll_now(103, 100).accepted);
    let c = poll_now(99, 100);
    assert!(!c.accepted);
    assert_eq!(c.debounced_for_secs, 3);
}

#[test]
fn holders_are_listed_from_the_largest_down() {
    let mut s = state();
    register(&mut s, "LUCKY", 950_950);
    hold(&mut s, "a:0", "carol", &[("LUCKY", 5)]);
    hold(&mut s, "a:1", "alice", &[("LUCKY", 3)]);
    hold(&mut s, "a:2", "alice", &[("LUCKY", 2), ("OTHER", 9)]);
    hold(&mut s, "a:3", "bob", &[("LUCKY", 7)]);
    hold(&mut s, "a:4", "dave", &[("OTHER", 9)]);
    hold(&mut s, "a:5", "erin", &[("LUCKY", 0)]);
    s.indexed_height = 4;
    s.tip_height = 9;
    let r = token_holders(&s, "lucky", None, None);
    let got: Vec<(&str, u64)> = r.holders.iter().map(|h| (h.address.as_str(), h.balance)).collect();
    assert_eq!(got, vec![("bob", 7), ("alice", 5), ("carol", 5)]);
    assert_eq!((r.ticker.as_str(), r.total, r.limit, r.offset), ("LUCKY", 3, 100, 0));
    assert_eq!((r.indexed, r.indexed_height, r.tip_height), (true, 4, 9));
    let page = token_holders(&s, "LUCKY", Some(1), Some(1));
    assert_eq!(page.holders.len(), 1);
    assert_eq!(page.holders[0].address, "alice");
    assert_eq!(token_holders(&s, "LUCKY", Some(10_000), Some(9)).holders.len(), 0);
    assert_eq!(token_holders(&s, "LUCKY", Some(10_000), Some(9)).limit, 500);
    assert!(!token_holders(&s, "NONE", None, None).indexed);
    assert_eq!(count_holders(&s, "LUCKY"), 3);
    assert_eq!(count_holders(&s, "OTHER"), 2);
    assert_eq!(count_holders(&s, "NONE"), 0);
}

#[test]
fn many_holders_are_sorted() {
    let mut s = state();
    for i in 0..200u64 {
        let address = format!("addr{:03}", (i * 37) % 200);
        hold(&mut s, &format!("t:{}", i), &address, &[("LUCKY", (i * 53) % 17 + 1)]);
    }
    let r = token_holders(&s, "LUCKY", Some(500), None);
    assert_eq!(r.total, 200);
    for w in r.holders.windows(2) {
        assert!(w[0].balance > w[1].balance
            || (w[0].balance == w[1].balance && w[0].address < w[1].address));
    }
}

#[test]
fn tokens_are_listed_in_order_of_deployment() {
    let mut s = state();
    register(&mut s, "ZED", 950_950);
    register(&mut s, "ABC", 950_960);
    register(&mut s, "AAA", 950_960);
    hold(&mut s, "a:0", "alice", &[("ZED", 5)]);
    let r = tokens_all(&s, None, None);
    let got: Vec<&str> = r.items.iter().map(|t| t.ticker.as_str()).collect();
    assert_eq!(got, vec!["ZED", "AAA", "ABC"]);
    assert_eq!((r.total, r.offset, r.limit), (3, 0, 10));
    assert_eq!(r.items[0].holders, 1);
    assert_eq!(r.items[1].holders, 0);
    assert_eq!(r.items[0].deploy_txid, "tx-ZED");
    let page = tokens_all(&s, Some(1), Some(0));
    assert_eq!(page.limit, 1);
    assert_eq!(page.items[0].ticker, "AAA");
    assert_eq!(tokens_all(&s, Some(7), Some(99)).items.len(), 0);
    assert_eq!(tokens_all(&s, Some(7), Some(99)).limit, 30);
    assert_eq!(token_one(&s, "ZED").ok().unwrap().minted, 50);
    assert_eq!(token_one(&s, "zed").err(), Some(ApiError::NotFound));
}

#[test]
fn bets_are_listed_newest_first() {
    let mut s = state();
    s.bets.push_back(bet("b1", "x", "iron", "LUCKY"));
    s.bets.push_back(bet("b2", "y", "gold", "LUCKY"));
    s.bets.push_back(bet("b3", "x", "iron", "OTHER"));
    s.bets.push_back(bet("b4", "x", "iron", "LUCKY"));
    let ids = |v: &Vec<BetView>| v.iter().map(|b| b.txid.clone()).collect::<Vec<String>>();
    let all = bets_all(&s, None, None, None, None);
    assert_eq!(ids(&all.bets), vec!["b4", "b3", "b2", "b1"]);
    assert_eq!((all.total, all.limit, all.offset), (4, 100, 0));
    let iron = bets_all(&s, Some(1), Some(1), Some("IRON"), Some("lucky"));
    assert_eq!(ids(&iron.bets), vec!["b1"]);
    assert_eq!(iron.total, 2);
    assert_eq!(bets_all(&s, None, None, Some("lead"), None).total, 0);
    assert_eq!(bets_all(&s, Some(0), None, None, None).bets.len(), 0);
    assert_eq!(ids(&bets_for_address(&s, "x")), vec!["b1", "b3", "b4"]);
}

#[test]
fn transfers_are_listed_newest_first() {
    let mut s = state();
    s.transfers.push_back(transfer("T1", "x", "LUCKY", 0));
    s.transfers.push_back(transfer("t2", "y", "OTHER", 1));
    s.transfers.push_back(transfer("t3", "z", "LUCKY", 2));
    hold(&mut s, "t1:0", "alice", &[("LUCKY", 5)]);
    hold(&mut s, "t3:2", "x", &[("LUCKY", 5)]);
    let r = transfers_all(&s, None, None, Some("LUCKY"));
    assert_eq!(r.total, 2);
    assert_eq!(r.transfers[0].txid, "t3");
    assert_eq!(r.transfers[1].txid, "T1");
    assert_eq!(transfers_all(&s, Some(2), Some(2), None).transfers.len(), 1);
    let x: Vec<String> = transfers_for_address(&s, "x").iter().map(|t| t.txid.clone()).collect();
    assert_eq!(x, vec!["T1", "t3"]);
    let a: Vec<String> = transfers_for_address(&s, "alice").iter().map(|t| t.txid.clone()).collect();
    assert_eq!(a, vec!["T1"]);
    assert!(transfers_for_address(&s, "nobody").is_empty());
}

#[test]
fn an_address_has_its_balances_and_counts() {
    let mut s = state();
    hold(&mut s, "a:0", "alice", &[("LUCKY", 5)]);
    hold(&mut s, "a:1", "alice", &[("LUCKY", 6), ("OTHER", 1)]);
    s.bets.push_back(bet("b1", "alice", "iron", "LUCKY"));
    s.transfers.push_back(transfer("A", "q", "LUCKY", 1));
    let r = balances(&s, "alice");
    assert_eq!(r.address, "alice");
    assert_eq!(r.balances.get("LUCKY"), Some(&11));
    assert_eq!(r.balances.get("OTHER"), Some(&1));
    assert_eq!((r.bet_count, r.transfer_count), (1, 1));
    let none = balances(&s, "nobody");
    assert!(none.balances.is_empty());
    assert_eq!((none.bet_count, none.transfer_count), (0, 0));
}

#[test]
fn balances_stop_at_the_largest_number() {
    let mut s = state();
    hold(&mut s, "a:0", "alice", &[("LUCKY", u64::MAX)]);
    hold(&mut s, "a:1", "alice", &[("LUCKY", 6)]);
    assert_eq!(s.address_balances("alice").get("LUCKY"), Some(&u64::MAX));
    assert_eq!(s.total_minted_in_utxos("LUCKY"), u64::MAX);
    assert_eq!(token_holders(&s, "LUCKY", None, None).holders[0].balance, u64::MAX);
}

#[test]
fn outputs_of_an_address_are_listed() {
    let mut s = state();
    hold(&mut s, "aa:0", "alice", &[("LUCKY", 5)]);
    hold(&mut s, "bb:17", "alice", &[("OTHER", 1), ("LUCKY", 0)]);
    hold(&mut s, "cc:1", "alice", &[("LUCKY", 0)]);
    hold(&mut s, "malformed", "alice", &[("LUCKY", 3)]);
    hold(&mut s, "dd:1", "bob", &[("LUCKY", 5)]);
    let mut got: Vec<(String, u32)> =
        utxos_for_address(&s, "alice").iter().map(|u| (u.txid.clone(), u.vout)).collect();
    got.sort();
    assert_eq!(got, vec![("aa".to_string(), 0), ("bb".to_string(), 17)]);
    assert!(utxos_for_address(&s, "nobody").is_empty());
}

#[test]
fn keys_are_taken_apart() {
    assert_eq!(split_outpoint("ab:7"), Some(("ab".to_string(), 7)));
    assert_eq!(split_outpoint(":7"), Some((String::new(), 7)));
    assert_eq!(split_outpoint("ab:+7"), Some(("ab".to_string(), 7)));
    assert_eq!(split_outpoint("ab:4294967295"), Some(("ab".to_string(), 4294967295)));
    assert_eq!(split_outpoint("ab:4294967296"), None);
    assert_eq!(split_outpoint("ab:"), None);
    assert_eq!(split_outpoint("ab:+"), None);
    assert_eq!(split_outpoint("ab:1:2"), None);
    assert_eq!(split_outpoint("ab"), None);
}

#[test]
fn transactions_are_found_in_the_logs() {
    let mut s = state();
    s.bets.push_back(bet("b1", "x", "iron", "LUCKY"));
    s.transfers.push_back(transfer("t1", "x", "LUCKY", 0));
    match bet_by_txid(&s, "b1") {
        Ok(LoggedTx::Bet(b)) => assert_eq!(b, bet("b1", "x", "iron", "LUCKY")),
        _ => panic!("no bet"),
    }
    match bet_by_txid(&s, "t1") {
        Ok(LoggedTx::Transfer(t)) => assert_eq!(t, transfer("t1", "x", "LUCKY", 0)),
        _ => panic!("no transfer"),
    }
    assert!(matches!(bet_by_txid(&s, "T1"), Err(ApiError::NotFound)));
}

#[test]
fn deployments_are_listed_oldest_first() {
    let mut s = state();
    for t in ["A", "B"] {
        s.deploys.push_back(DeployView {
            txid: t.to_string(),
            block_height: 1,
            block_hash: String::new(),
            deployer: String::new(),
            ticker: t.to_string(),
            supply: 21_000_000,
            applied: true,
        });
    }
    let d = deploys_all(&s);
    assert_eq!(d.len(), 2);
    assert_eq!(d[0].ticker, "A");
    assert_eq!(d[1].ticker, "B");
}

#[test]
fn unspent_outputs_come_from_a_full_scan() {
    let mut scan = ScanTxOutResult {
        success: true,
        height: 950_999,
        unspents: vec![ScanTxOutEntry { txid: "aa".to_string(), vout: 1, sats: 546, height: 950_960 }],
    };
    let r = btc_utxos("alice", &scan).ok().unwrap();
    assert_eq!((r.address.as_str(), r.scanned_at_height), ("alice", 950_999));
    assert_eq!(r.utxos[0].txid, "aa");
    assert_eq!((r.utxos[0].vout, r.utxos[0].sats, r.utxos[0].block_height), (1, 546, 950_960));
    assert!(r.utxos[0].confirmed);
    scan.success = false;
    assert_eq!(btc_utxos("alice", &scan).err(), Some(ApiError::BadGateway));
}

#[test]
fn a_transaction_is_confirmed_by_one_block() {
    let raw = RawTxStatus {
        blockhash: Some("00".to_string()),
        confirmations: 1,
        blocktime: Some(7),
    };
    let header = BlockHeader { hash: "00".to_string(), height: 950_960, time: 7 };
    let r = tx_status("aa", &raw, Some(&header));
    assert_eq!(r.txid, "aa");
    assert!(r.confirmed);
    assert_eq!(r.block_hash, Some("00".to_string()));
    assert_eq!(r.block_height, Some(950_960));
    assert_eq!(r.block_time, Some(7));
    assert_eq!(tx_status("aa", &raw, None).block_height, None);
    let fresh = RawTxStatus { blockhash: None, confirmations: 0, blocktime: None };
    let r = tx_status("aa", &fresh, Some(&header));
    assert!(!r.confirmed);
    assert_eq!(r.block_height, None);
}

#[test]
fn errors_of_the_node_are_told_apart() {
    assert_eq!(tx_error("No such mempool or blockchain transaction"), ApiError::NotFound);
    assert_eq!(tx_error("x not found"), ApiError::NotFound);
    assert_eq!(tx_error("an invalid txid"), ApiError::NotFound);
    assert_eq!(tx_error("no such"), ApiError::BadGateway);
    assert_eq!(block_error("Block height out of range"), ApiError::NotFound);
    assert_eq!(block_error("value out of range"), ApiError::NotFound);
    assert_eq!(block_error("timeout"), ApiError::BadGateway);
}
