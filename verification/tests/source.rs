use luckyprotocol_indexer::chain::{
    apply_block_tx, canonical_hashes, first_divergence, ingest_block, reorg_probes, scan_step,
    snapshot_heights, ScanStep,
};
use luckyprotocol_indexer::indexer::{ErrorKind, IndexerState, Network};
use luckyprotocol_indexer::protocol::{ProtocolPayload, PROJECT_FEE_ADDRESS};
use luckyprotocol_indexer::source::{
    check_root, extract_luckyprotocol_payload_from_json, parse_network, pushed_data,
    resolve_sender_from_json, verify_block_merkle_root, BlockData, EsploraTxFull, EsploraVin,
    EsploraVout, MerkleError,
};

const TXID_A: &str = "b1fea52486ce0c62bb442b530a3f0132b826c74e473d1f2c220bfa78111c5082";
const TXID_B: &str = "f4184fc596403b9d638783cf57adfe4c75c605f6356fbc91338530e9831e9e16";
const ROOT_AB: &str = "7dac2c5666815c17a3b36427de37bb9d2e2c5ccec3f8633eb91a4205cb4c10ff";

fn out(kind: &str, script: &str, address: Option<&str>, value: u64) -> EsploraVout {
    EsploraVout {
        scriptpubkey_address: address.map(|a| a.to_string()),
        value,
        scriptpubkey: script.to_string(),
        scriptpubkey_type: kind.to_string(),
    }
}

fn input(txid: &str, vout: u32, from: Option<(Option<&str>, u64)>) -> EsploraVin {
    EsploraVin {
        txid: txid.to_string(),
        vout,
        prevout: from.map(|(a, v)| out("v0_p2wpkh", "0014", a, v)),
    }
}

fn tx(txid: &str, vin: Vec<EsploraVin>, vout: Vec<EsploraVout>) -> EsploraTxFull {
    EsploraTxFull { txid: txid.to_string(), vin, vout }
}

/// The script that pushes `payload` directly.
fn script(payload: &str) -> String {
    format!("6a{:02x}{}", payload.len(), hex::encode(payload))
}

fn carrier(payload: &str) -> EsploraVout {
    out("op_return", &script(payload), None, 0)
}

fn deploy(ticker: &str) -> Option<ProtocolPayload> {
    Some(ProtocolPayload::Deploy { ticker: ticker.to_string() })
}

fn only(v: EsploraVout) -> EsploraTxFull {
    tx("t", Vec::new(), vec![v])
}

#[test]
fn only_the_main_network_is_supported() {
    assert_eq!(parse_network("bitcoin"), Ok(Network::Bitcoin));
    assert_eq!(parse_network("MainNet"), Ok(Network::Bitcoin));
    let e = parse_network("Signet").unwrap_err();
    assert_eq!(e.name, "signet");
    assert_eq!(e.message(), "signet not supported — LUCKYPROTOCOL indexer is mainnet-only");
}

#[test]
fn the_payload_is_in_the_one_op_return() {
    let t = tx(
        "t",
        Vec::new(),
        vec![out("v0_p2wpkh", "0014aa", Some("x"), 5), carrier("LUCKYPROTOCOL|DEPLOY|LUCKY")],
    );
    assert_eq!(extract_luckyprotocol_payload_from_json(&t), deploy("LUCKY"));
    assert_eq!(extract_luckyprotocol_payload_from_json(&tx("t", Vec::new(), Vec::new())), None);
}

#[test]
fn several_op_returns_void_the_payload() {
    let t = tx(
        "t",
        Vec::new(),
        vec![carrier("LUCKYPROTOCOL|DEPLOY|LUCKY"), out("op_return", "6a", None, 0)],
    );
    assert_eq!(extract_luckyprotocol_payload_from_json(&t), None);
    let unclassified = tx(
        "t",
        Vec::new(),
        vec![carrier("LUCKYPROTOCOL|DEPLOY|LUCKY"), out("nonstandard", "6A51", None, 0)],
    );
    assert_eq!(extract_luckyprotocol_payload_from_json(&unclassified), None);
    // The script decides, not the type that the node gives.
    let typed = tx(
        "t",
        Vec::new(),
        vec![carrier("LUCKYPROTOCOL|DEPLOY|LUCKY"), out("op_return", "51", None, 0)],
    );
    assert_eq!(extract_luckyprotocol_payload_from_json(&typed), deploy("LUCKY"));
    let untyped = only(out("", &script("LUCKYPROTOCOL|DEPLOY|LUCKY"), None, 0));
    assert_eq!(extract_luckyprotocol_payload_from_json(&untyped), deploy("LUCKY"));
}

#[test]
fn other_scripts_carry_nothing() {
    let s = script("LUCKYPROTOCOL|DEPLOY|LUCKY");
    // A leading OP_FALSE, trailing bytes, a short push, bad hex.
    for bad in [format!("00{}", s), format!("{}00", s), s[..s.len() - 2].to_string(), format!("{}0", s)] {
        assert_eq!(extract_luckyprotocol_payload_from_json(&only(out("op_return", &bad, None, 0))), None);
    }
    assert_eq!(extract_luckyprotocol_payload_from_json(&only(out("op_return", "6a", None, 0))), None);
}

#[test]
fn all_four_push_forms_are_read() {
    let p = "LUCKYPROTOCOL|DEPLOY|LUCKY";
    let body = hex::encode(p);
    for prefix in ["6a1a", "6a4c1a", "6a4d1a00", "6a4e1a000000", "6A1A"] {
        let t = only(out("op_return", &format!("{}{}", prefix, body), None, 0));
        assert_eq!(extract_luckyprotocol_payload_from_json(&t), deploy("LUCKY"));
    }
    let t = only(out("op_return", &format!("6a4e1a000001{}", body), None, 0));
    assert_eq!(extract_luckyprotocol_payload_from_json(&t), None);
}

#[test]
fn pushes_are_capped() {
    let mut b = vec![0x6a, 0x4d, 0x00, 0x01];
    b.extend(vec![7u8; 256]);
    assert_eq!(pushed_data(&b).unwrap().len(), 256);
    let mut c = vec![0x6a, 0x4d, 0x01, 0x01];
    c.extend(vec![7u8; 257]);
    assert_eq!(pushed_data(&c), None);
    assert_eq!(pushed_data(&[0x6a, 0x4c, 0x00]), Some(&[][..]));
    assert_eq!(pushed_data(&[0x6a, 0x00]), None);
    assert_eq!(pushed_data(&[0x6a, 0x4e, 0xff, 0xff, 0xff, 0xff]), None);
    assert_eq!(pushed_data(&[0x6b, 0x01, 0x01]), None);
}

#[test]
fn the_sender_contributes_the_most() {
    let t = tx(
        "t",
        vec![
            input("a", 0, Some((Some("x"), 10))),
            input("b", 0, Some((Some("y"), 15))),
            input("c", 0, Some((Some("x"), 6))),
            input("d", 0, Some((None, 100))),
            input("e", 0, None),
        ],
        Vec::new(),
    );
    assert_eq!(resolve_sender_from_json(&t), Some("x".to_string()));
}

#[test]
fn the_earlier_input_breaks_a_tie() {
    let t = tx(
        "t",
        vec![
            input("a", 0, Some((Some("z"), 5))),
            input("b", 0, Some((Some("a"), 10))),
            input("c", 0, Some((Some("z"), 5))),
        ],
        Vec::new(),
    );
    assert_eq!(resolve_sender_from_json(&t), Some("z".to_string()));
    assert_eq!(resolve_sender_from_json(&tx("t", Vec::new(), Vec::new())), None);
    assert_eq!(resolve_sender_from_json(&tx("t", vec![input("", 0, None)], Vec::new())), None);
}

fn page(txids: &[&str]) -> (usize, Vec<EsploraTxFull>) {
    (0, txids.iter().map(|t| tx(t, Vec::new(), Vec::new())).collect())
}

#[test]
fn blocks_match_their_headers() {
    assert_eq!(verify_block_merkle_root(&vec![page(&[TXID_A, TXID_B])], ROOT_AB), Ok(()));
    assert_eq!(verify_block_merkle_root(&vec![page(&[TXID_A]), page(&[TXID_B])], ROOT_AB), Ok(()));
    assert_eq!(
        verify_block_merkle_root(&vec![page(&[TXID_A, TXID_B])], &ROOT_AB.to_uppercase()),
        Ok(())
    );
    // The root of a single transaction is its id.
    assert_eq!(verify_block_merkle_root(&vec![page(&[TXID_A])], TXID_A), Ok(()));
}

#[test]
fn other_blocks_are_refused() {
    let both = vec![page(&[TXID_A, TXID_B])];
    assert_eq!(verify_block_merkle_root(&both, ""), Err(MerkleError::MissingRoot));
    assert_eq!(
        verify_block_merkle_root(&vec![page(&[TXID_A, "xyz"])], ROOT_AB),
        Err(MerkleError::BadTxid { txid: "xyz".to_string() })
    );
    assert_eq!(
        verify_block_merkle_root(&vec![page(&[])], ROOT_AB),
        Err(MerkleError::NoTransactions)
    );
    assert_eq!(
        verify_block_merkle_root(&both, "00"),
        Err(MerkleError::BadRoot { root: "00".to_string() })
    );
    let swapped = verify_block_merkle_root(&vec![page(&[TXID_B, TXID_A])], ROOT_AB);
    assert!(matches!(swapped, Err(MerkleError::Mismatch { .. })));
    assert_eq!(check_root(None, ROOT_AB), Err(MerkleError::NoRoot));
}

#[test]
fn a_root_is_compared_byte_by_byte() {
    let mut bytes = [0u8; 32];
    bytes[0] = 1;
    let text = format!("{}01", "00".repeat(31));
    assert_eq!(check_root(Some(bytes), &text), Ok(()));
    bytes[31] = 2;
    assert!(matches!(check_root(Some(bytes), &text), Err(MerkleError::Mismatch { .. })));
}

fn state() -> IndexerState {
    IndexerState::new(Network::Bitcoin, String::new())
}

fn fee(sats: u64) -> EsploraVout {
    out("v1_p2tr", "5120", Some(PROJECT_FEE_ADDRESS), sats)
}

fn deploy_tx(txid: &str) -> EsploraTxFull {
    tx(
        txid,
        vec![input("f0", 0, Some((Some("carol"), 9_000)))],
        vec![carrier("LUCKYPROTOCOL|DEPLOY|LUCKY"), fee(5_460)],
    )
}

fn bet_tx(txid: &str) -> EsploraTxFull {
    tx(
        txid,
        vec![input("", 0, None), input("f1", 3, Some((Some("dave"), 9_000)))],
        vec![
            carrier("LUCKYPROTOCOL|bronze|f|LUCKY|2"),
            fee(546),
            out("v0_p2wpkh", "0014", Some("dave"), 600),
        ],
    )
}

#[test]
fn transactions_of_a_block_are_applied() {
    let mut s = state();
    assert!(apply_block_tx(&mut s, &deploy_tx("d1"), 950_950, "00f"));
    assert!(apply_block_tx(&mut s, &bet_tx("b1"), 950_950, "00f"));
    assert!(!apply_block_tx(&mut s, &tx("n1", Vec::new(), Vec::new()), 950_950, "00f"));
    assert_eq!(s.tokens.get("LUCKY").unwrap().deployer, "carol");
    assert_eq!(s.bets[0].sender, "dave");
    assert_eq!(s.utxo_balance("b1", 2).unwrap().balances.get("LUCKY"), Some(&1_000));
    assert_eq!(s.utxo_balance("b1", 2).unwrap().address, Some("dave".to_string()));
}

#[test]
fn an_unclassified_op_return_output_holds_no_tokens() {
    let mut s = state();
    assert!(apply_block_tx(&mut s, &deploy_tx("d1"), 950_950, "00f"));
    let mut b = bet_tx("b1");
    b.vout[2] = out("nonstandard", "6a", Some("dave"), 600);
    // Two such outputs: no payload at all.
    assert!(!apply_block_tx(&mut s, &b, 950_950, "00f"));
    assert_eq!(s.bets.len(), 0);
}

fn block(hash: &str, root: &str, txs: Vec<EsploraTxFull>) -> BlockData {
    BlockData {
        block_hash: hash.to_string(),
        merkle_root_claimed: root.to_string(),
        pages: vec![(0, txs)],
    }
}

/// A block of one transaction without a payload.
fn plain(hash: &str) -> BlockData {
    block(hash, TXID_A, vec![tx(TXID_A, Vec::new(), Vec::new())])
}

#[test]
fn a_block_without_pages_is_refused() {
    let mut s = state();
    let mut b = plain("00f");
    b.pages = Vec::new();
    assert_eq!(ingest_block(&mut s, 950_951, &b, 1).err(), Some(MerkleError::NoTransactions));
    b.merkle_root_claimed = String::new();
    assert_eq!(ingest_block(&mut s, 950_951, &b, 1).err(), Some(MerkleError::MissingRoot));
    assert_eq!(s.indexed_height, 0);
}

#[test]
fn a_scan_stops_at_the_first_bad_block() {
    let mut s = state();
    let (step, done) = scan_step(&mut s, 950_951, 950_953, Some(&plain("00a")), 1);
    assert!(matches!(step, ScanStep::Next { height: 950_952 }));
    assert_eq!(done.unwrap().applied_count, 0);
    let (step, done) = scan_step(&mut s, 950_952, 950_953, None, 2);
    assert!(matches!(step, ScanStep::Stop { fault: None }));
    assert!(done.is_none());
    assert_eq!((s.indexed_height, s.last_progress_at, s.recent_errors.len()), (950_951, 1, 0));
    let bad = block("00b", ROOT_AB, vec![deploy_tx(TXID_A)]);
    let (step, done) = scan_step(&mut s, 950_952, 950_953, Some(&bad), 3);
    assert!(matches!(step, ScanStep::Stop { fault: Some(MerkleError::Mismatch { .. }) }));
    assert!(done.is_none());
    assert_eq!((s.indexed_height, s.recent_errors.len()), (950_951, 1));
    assert!(s.tokens.is_empty());
    let (step, _) = scan_step(&mut s, 950_952, 950_952, Some(&plain("00b")), 4);
    assert!(matches!(step, ScanStep::Done));
    assert_eq!(s.indexed_height, 950_952);
}

#[test]
fn a_block_is_taken_in() {
    let mut s = state();
    let b = block("00f", ROOT_AB, vec![deploy_tx(TXID_A), bet_tx(TXID_B)]);
    let done = ingest_block(&mut s, 950_951, &b, 77).ok().unwrap();
    assert_eq!(done.applied_count, 2);
    assert!(done.snapshot.is_none());
    assert_eq!(s.indexed_height, 950_951);
    assert_eq!(s.last_progress_at, 77);
    assert_eq!(s.block_hashes.get(&950_951).unwrap(), "00f");
    assert_eq!(s.total_minted_in_utxos("LUCKY"), 1_000);
    assert_eq!(s.snapshots.len(), 0);
}

#[test]
fn a_block_that_does_not_match_is_refused() {
    let mut s = state();
    let b = block("00f", ROOT_AB, vec![deploy_tx(TXID_A)]);
    let e = ingest_block(&mut s, 950_951, &b, 77).err().unwrap();
    assert!(matches!(e, MerkleError::Mismatch { .. }));
    assert_eq!(s.indexed_height, 0);
    assert!(s.tokens.is_empty());
    assert_eq!(s.recent_errors.len(), 1);
    assert_eq!(s.recent_errors[0].kind, ErrorKind::Merkle);
    assert_eq!(s.recent_errors[0].at, 77);
    assert_eq!(s.recent_errors[0].height, Some(950_951));
    assert_eq!(
        s.recent_errors[0].detail,
        "block 950951 merkle root verification failed — Core RPC returned tx list that does not hash to the header's claimed root; block refused"
    );
}

#[test]
fn every_twelfth_block_takes_a_snapshot() {
    let mut s = state();
    for h in 950_952..950_977u32 {
        let b = plain(&format!("{:x}", h));
        let done = ingest_block(&mut s, h, &b, 1).ok().unwrap();
        assert_eq!(done.snapshot.is_some(), h % 12 == 0);
    }
    assert_eq!(snapshot_heights(&s), vec![950_952, 950_964, 950_976]);
}

#[test]
fn two_hundred_hashes_are_kept() {
    let mut s = state();
    for h in 1..404u32 {
        let b = plain(&format!("{:x}", h));
        assert!(ingest_block(&mut s, h, &b, 1).is_ok());
    }
    assert_eq!(s.block_hashes.len(), 201);
    assert!(s.block_hashes.get(&202).is_none());
    assert_eq!(s.block_hashes.get(&203).unwrap(), "cb");
    assert_eq!(s.block_hashes.get(&403).unwrap(), "193");
}

#[test]
fn the_last_twelve_hashes_are_probed() {
    let mut s = state();
    assert!(reorg_probes(&s).is_empty());
    for h in 1..31u32 {
        s.block_hashes.insert(h, format!("h{}", h));
    }
    s.block_hashes.insert(99, "later".to_string());
    s.indexed_height = 30;
    let probes = reorg_probes(&s);
    assert_eq!(probes.len(), 12);
    assert_eq!(probes[0], (19, "h19".to_string()));
    assert_eq!(probes[11], (30, "h30".to_string()));
    s.indexed_height = 3;
    assert_eq!(reorg_probes(&s).len(), 3);
}

fn ok(s: &str) -> Result<String, String> {
    Ok(s.to_string())
}

#[test]
fn the_deepest_divergence_is_reported() {
    let probes = vec![(1, "a".to_string()), (2, "b".to_string()), (3, "c".to_string())];
    assert_eq!(first_divergence(&probes, &vec![ok("a"), ok("b"), ok("c")]), Ok(None));
    assert_eq!(first_divergence(&probes, &vec![ok("a"), ok("x"), ok("y")]), Ok(Some(2)));
    let down = Err("down".to_string());
    assert_eq!(first_divergence(&probes, &vec![ok("a"), down.clone(), ok("y")]), Err("down".to_string()));
    assert_eq!(first_divergence(&probes, &vec![ok("x"), down, ok("y")]), Ok(Some(1)));
    assert!(first_divergence(&probes, &vec![ok("a")]).is_err());
    assert_eq!(first_divergence(&Vec::new(), &Vec::new()), Ok(None));
}

#[test]
fn heights_without_an_answer_are_left_out() {
    let m = canonical_hashes(&vec![5, 7, 9], &vec![ok("a"), Err("down".to_string()), ok("c")]);
    assert_eq!(m.get(&5).unwrap(), "a");
    assert!(m.get(&7).is_none());
    assert_eq!(m.get(&9).unwrap(), "c");
}

#[test]
fn resuming_equals_a_full_scan() {
    let first = block("00f", ROOT_AB, vec![deploy_tx(TXID_A), bet_tx(TXID_B)]);
    let second = block(
        "001",
        TXID_A,
        vec![tx(TXID_A, vec![input(TXID_B, 2, None)], vec![carrier("nothing")])],
    );
    let mut full = state();
    assert!(ingest_block(&mut full, 950_952, &first, 1).is_ok());
    assert!(ingest_block(&mut full, 950_953, &second, 1).is_ok());

    let mut s = state();
    let snap = ingest_block(&mut s, 950_952, &first, 1).ok().unwrap().snapshot.unwrap();
    let mut resumed = state();
    resumed.restore_from_snapshot(snap);
    assert!(ingest_block(&mut resumed, 950_953, &second, 1).is_ok());
    assert_eq!(resumed.indexed_height, full.indexed_height);
    assert_eq!(resumed.total_minted_in_utxos("LUCKY"), full.total_minted_in_utxos("LUCKY"));
    assert_eq!(resumed.total_minted_in_utxos("LUCKY"), 0);
    assert_eq!(resumed.bets[0], full.bets[0]);
}
