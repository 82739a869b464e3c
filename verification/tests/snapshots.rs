use std::collections::HashMap;

use luckyprotocol_indexer::chain::{has_current_version, snapshot_probes, validate_snapshot_against_canonical};
use luckyprotocol_indexer::indexer::{
    BetStatus, BetView, ErrorEvent, ErrorKind, IndexerState, Network, TokenRegistryEntry,
    MAX_RECENT_ERRORS, SNAPSHOT_RING_SIZE, SNAPSHOT_VERSION,
};

fn state() -> IndexerState {
    IndexerState::new(Network::Bitcoin, "base".to_string())
}

fn token(ticker: &str) -> TokenRegistryEntry {
    TokenRegistryEntry {
        ticker: ticker.to_string(),
        supply: 21_000_000,
        minted: 0,
        deployer: "carol".to_string(),
        deploy_txid: "d".to_string(),
        deploy_block: 950_950,
    }
}

fn at_height(s: &mut IndexerState, h: u32, hash: &str, ticker: &str) {
    s.indexed_height = h;
    s.block_hashes.insert(h, hash.to_string());
    s.tokens.insert(ticker.to_string(), token(ticker));
}

fn hashes(pairs: &[(u32, &str)]) -> HashMap<u32, String> {
    let mut m = HashMap::new();
    for (h, x) in pairs {
        m.insert(*h, x.to_string());
    }
    m
}

fn event(i: u64) -> ErrorEvent {
    ErrorEvent {
        at: i,
        kind: ErrorKind::RateLimit,
        host: Some("host".to_string()),
        height: None,
        detail: "detail".to_string(),
    }
}

#[test]
fn a_new_state_is_empty() {
    let s = state();
    assert_eq!(s.network, Network::Bitcoin);
    assert_eq!(s.network.name(), "bitcoin");
    assert_eq!(s.esplora_base, "base");
    assert_eq!(s.indexed_height, 0);
    assert_eq!(s.tip_height, 0);
    assert!(s.utxo_balances.is_empty() && s.tokens.is_empty());
    assert_eq!(s.snapshots.len(), 0);
    assert_eq!(s.recent_errors.len(), 0);
    assert!(s.last_progress_at > 0);
}

#[test]
fn progress_is_noted() {
    let mut s = state();
    s.touch_progress_at(5);
    assert_eq!(s.last_progress_at, 5);
    s.touch_progress();
    assert!(s.last_progress_at > 5);
}

#[test]
fn events_are_kept_up_to_the_cap() {
    let mut s = state();
    for i in 0..20 {
        s.push_error(event(i));
    }
    assert_eq!(s.recent_errors.len(), MAX_RECENT_ERRORS);
    assert_eq!(s.recent_errors[0].at, 4);
    assert_eq!(s.recent_errors[15].at, 19);
    assert_eq!(s.recent_errors[15].kind, ErrorKind::RateLimit);
}

#[test]
fn the_ring_keeps_the_last_snapshots() {
    let mut s = state();
    for i in 0..10u32 {
        s.indexed_height = i;
        let snap = s.take_snapshot();
        assert_eq!(snap.indexed_height, i);
        assert_eq!(snap.version, SNAPSHOT_VERSION);
    }
    assert_eq!(s.snapshots.len(), SNAPSHOT_RING_SIZE);
    assert_eq!(s.snapshots[0].indexed_height, 2);
    assert_eq!(s.snapshots[7].indexed_height, 9);
}

#[test]
fn a_snapshot_gives_back_the_state() {
    let mut s = state();
    at_height(&mut s, 950_952, "aa", "ONE");
    let snap = s.take_snapshot();
    at_height(&mut s, 950_964, "bb", "TWO");
    s.tip_height = 7;
    s.restore_from_snapshot(snap);
    assert_eq!(s.indexed_height, 950_952);
    assert!(s.tokens.contains_key("ONE") && !s.tokens.contains_key("TWO"));
    assert_eq!(s.block_hashes.get(&950_952).unwrap(), "aa");
    assert!(s.block_hashes.get(&950_964).is_none());
    assert_eq!(s.tip_height, 7);
}

#[test]
fn recovery_takes_the_latest_snapshot_on_the_chain() {
    let mut s = state();
    at_height(&mut s, 12, "aa", "ONE");
    s.take_snapshot();
    at_height(&mut s, 24, "bb", "TWO");
    s.take_snapshot();
    at_height(&mut s, 36, "cc", "THREE");
    s.take_snapshot();
    let r = s.restore_to_snapshot_at_or_before(35, &hashes(&[(12, "aa"), (24, "bb"), (36, "cc")]));
    assert_eq!(r, Some(24));
    assert_eq!(s.indexed_height, 24);
    assert!(s.tokens.contains_key("TWO") && !s.tokens.contains_key("THREE"));
    assert_eq!(s.snapshots.len(), 1);
    assert_eq!(s.snapshots[0].indexed_height, 12);
}

#[test]
fn recovery_passes_over_snapshots_off_the_chain() {
    let mut s = state();
    at_height(&mut s, 12, "aa", "ONE");
    s.take_snapshot();
    at_height(&mut s, 24, "bb", "TWO");
    s.take_snapshot();
    assert_eq!(s.restore_to_snapshot_at_or_before(11, &hashes(&[(12, "aa"), (24, "bb")])), None);
    assert_eq!(s.restore_to_snapshot_at_or_before(40, &hashes(&[(12, "zz")])), None);
    assert_eq!(s.snapshots.len(), 2);
    assert_eq!(s.indexed_height, 24);
    assert_eq!(s.restore_to_snapshot_at_or_before(40, &hashes(&[(12, "aa"), (24, "xx")])), Some(12));
    assert_eq!(s.snapshots.len(), 0);
}

#[test]
fn a_wipe_leaves_the_empty_baseline() {
    let mut s = state();
    at_height(&mut s, 12, "aa", "ONE");
    s.take_snapshot();
    s.push_error(event(1));
    s.tip_height = 40;
    s.wipe_for_reorg();
    assert_eq!(s.indexed_height, 0);
    assert!(s.tokens.is_empty());
    assert!(s.block_hashes.get(&12).is_none());
    assert_eq!(s.snapshots.len(), 1);
    assert_eq!(s.snapshots[0].indexed_height, 0);
    assert_eq!(s.tip_height, 40);
    assert_eq!(s.recent_errors.len(), 1);
    // The baseline has no hash, so recovery never goes back to it.
    assert_eq!(s.restore_to_snapshot_at_or_before(0, &hashes(&[(0, "genesis")])), None);
}

#[test]
fn old_hashes_are_pruned() {
    let mut s = state();
    for h in 1..6u32 {
        s.block_hashes.insert(h, format!("h{}", h));
    }
    s.prune_block_hashes(4);
    assert!(s.block_hashes.get(&3).is_none());
    assert_eq!(s.block_hashes.get(&4).unwrap(), "h4");
    assert_eq!(s.block_hashes.len(), 2);
}

fn pending(txid: &str, status: BetStatus) -> BetView {
    BetView {
        txid: txid.to_string(),
        block_height: 950_951,
        block_hash: "00f".to_string(),
        sender: String::new(),
        tier: "iron".to_string(),
        pick: "even".to_string(),
        ticker: "LUCKY".to_string(),
        win_out_idx: 1,
        change_out_idx: None,
        status,
        reveal_block_height: Some(1),
        reveal_block_hash: Some("x".to_string()),
        win: None,
        reward_smallest: 9,
        cap_exhausted: false,
    }
}

#[test]
fn pending_wagers_of_old_snapshots_are_settled() {
    let mut s = state();
    s.bets.push_back(pending("a", BetStatus::LegacyPending));
    s.bets.push_back(pending("b", BetStatus::LegacyExpired));
    s.advance_settlement(1, "ignored");
    assert_eq!(s.bets[0].status, BetStatus::Settled);
    assert_eq!(s.bets[0].win, Some(true));
    assert_eq!(s.bets[0].reward_smallest, 0);
    assert_eq!(s.bets[0].reveal_block_height, None);
    assert_eq!(s.bets[0].reveal_block_hash, None);
    assert_eq!(s.bets[1], pending("b", BetStatus::LegacyExpired));
}

#[test]
fn a_snapshot_is_held_against_the_chain() {
    let mut s = state();
    for h in 1..16u32 {
        s.block_hashes.insert(h, format!("AB{:02}", h));
    }
    let mut snap = s.take_snapshot();
    let probes = snapshot_probes(&snap);
    assert_eq!(probes, vec![15, 14, 13, 12, 11, 10, 9, 8, 7, 6, 5, 4]);
    let good: Vec<Result<String, String>> =
        probes.iter().map(|h| Ok(format!("ab{:02}", h))).collect();
    assert_eq!(validate_snapshot_against_canonical(&snap, &good), Ok(true));
    let mut bad = good.clone();
    bad[3] = Ok("zz".to_string());
    bad[5] = Err("down".to_string());
    assert_eq!(validate_snapshot_against_canonical(&snap, &bad), Ok(false));
    bad[2] = Err("unreachable".to_string());
    assert_eq!(validate_snapshot_against_canonical(&snap, &bad), Err("unreachable".to_string()));
    assert!(has_current_version(&snap));
    snap.version = 9;
    assert!(!has_current_version(&snap));
}

#[test]
fn an_empty_snapshot_is_trivially_canonical() {
    let mut s = state();
    let snap = s.take_snapshot();
    let probes = snapshot_probes(&snap);
    assert!(probes.is_empty());
    assert_eq!(validate_snapshot_against_canonical(&snap, &Vec::new()), Ok(true));
}
