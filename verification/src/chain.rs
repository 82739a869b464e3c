//! Taking blocks in, and comparing what was taken in with the chain.
use std::collections::HashMap;
use vstd::prelude::*;

use crate::heights::{hash_at, latest_heights, no_hashes, record_hash};
use crate::indexer::{
    ErrorEvent, ErrorKind, IndexerState, StateSnapshot, TxContext, SNAPSHOT_INTERVAL_BLOCKS,
};
use crate::source::{
    extract_luckyprotocol_payload_from_json, op_return_indices, resolve_sender_from_json,
    verify_block_merkle_root, BlockData, EsploraTxFull, EsploraVin, EsploraVout, MerkleError,
};
use crate::text::{push_decimal, same_ignoring_ascii_case, same_text};
use crate::views::copy_text;

verus! {

use crate::apply::with_ledger;
use crate::heights::{hashes_of, latest_from};
use crate::indexer::{
    optional_texts, outpoints_view, ring_push, settled_ledger, ErrorModel, SnapshotModel, StateModel,
    MAX_RECENT_ERRORS, SNAPSHOT_RING_SIZE, SNAPSHOT_VERSION,
};
use crate::hashing::hex_bytes;
use crate::laws::{
    addresses_agree, backed, found, law_decoded_payloads_are_in_bounds, law_soundness_is_kept,
    law_supply_is_capped, logs_linked, moves, numbers_left, sound,
};
use crate::ledger::{applied, sat, touches, LedgerModel, Text, TxModel};
use crate::source::{
    block_txs, contributes, is_sender, law_sender_is_unique, merkle_verdict, op_return_idxs,
    op_returns, payload_of_tx, pushed, sender_of, MerkleFault, TxFullModel, VinModel, VoutModel,
};
use crate::text::{ascii_lower, decimal};
use crate::views::{view_option, views};

/// How many blocks back a reorganization is looked for.
pub const REORG_HORIZON: u32 = 12;

/// How many heights below the indexed one have their hashes kept.
pub const BLOCK_HASHES_KEPT: u32 = 200;

// ---------------------------------------------------------------------------
// One transaction.
// ---------------------------------------------------------------------------

/// The outputs that inputs spend. A coinbase input, which names no transaction, spends
/// none.
pub open spec fn spent_of(vins: Seq<VinModel>) -> Seq<(Text, u32)>
    decreases vins.len(),
{
    if vins.len() == 0 {
        Seq::empty()
    } else if vins.last().txid.len() == 0 {
        spent_of(vins.drop_last())
    } else {
        spent_of(vins.drop_last()).push((vins.last().txid, vins.last().vout))
    }
}

/// What the ledger reads of a transaction in a block.
pub open spec fn tx_model(tx: TxFullModel, height: u32, hash: Text) -> TxModel {
    TxModel {
        txid: tx.txid,
        block_height: height,
        block_hash: hash,
        sender: sender_of(tx.vin),
        spent: spent_of(tx.vin),
        vout_count: tx.vout.len() as u32,
        op_return_vouts: op_return_idxs(tx.vout),
        vout_addresses: tx.vout.map_values(|v: VoutModel| v.address),
        vout_values: tx.vout.map_values(|v: VoutModel| v.value),
    }
}

fn spent_outpoints(vins: &Vec<EsploraVin>) -> (r: Vec<(String, u32)>)
    ensures
        outpoints_view(r@) == spent_of(views(vins@)),
{
    let ghost all = views(vins@);
    let mut out: Vec<(String, u32)> = Vec::new();
    let mut i: usize = 0;
    proof {
        assert(all.take(0) =~= Seq::empty());
        assert(outpoints_view(out@) =~= Seq::empty());
    }
    while i < vins.len()
        invariant
            i <= vins@.len(),
            all == views(vins@),
            outpoints_view(out@) == spent_of(all.take(i as int)),
        decreases vins@.len() - i,
    {
        let ghost before = out@;
        proof {
            assert(all.take(i + 1).drop_last() =~= all.take(i as int));
            assert(all.take(i + 1).last() == vins@[i as int]@);
        }
        if !same_text(&vins[i].txid, "") {
            out.push((vins[i].txid.clone(), vins[i].vout));
            assert(outpoints_view(out@) =~= outpoints_view(before).push(
                (all[i as int].txid, all[i as int].vout),
            ));
        }
        proof {
            reveal_strlit("");
            if all[i as int].txid.len() == 0 {
                assert(all[i as int].txid =~= ""@);
            }
        }
        i += 1;
    }
    assert(all.take(all.len() as int) =~= all);
    out
}

fn vout_addresses(vouts: &Vec<EsploraVout>) -> (r: Vec<Option<String>>)
    ensures
        optional_texts(r@) == views(vouts@).map_values(|v: VoutModel| v.address),
{
    let mut out: Vec<Option<String>> = Vec::new();
    let mut i: usize = 0;
    while i < vouts.len()
        invariant
            i <= vouts@.len(),
            out@.len() == i,
            forall|j: int| 0 <= j < i ==> view_option(#[trigger] out@[j]) == vouts@[j]@.address,
        decreases vouts@.len() - i,
    {
        out.push(copy_text(&vouts[i].scriptpubkey_address));
        i += 1;
    }
    assert(optional_texts(out@) =~= views(vouts@).map_values(|v: VoutModel| v.address));
    out
}

fn vout_values(vouts: &Vec<EsploraVout>) -> (r: Vec<u64>)
    ensures
        r@ == views(vouts@).map_values(|v: VoutModel| v.value),
{
    let mut out: Vec<u64> = Vec::new();
    let mut i: usize = 0;
    while i < vouts.len()
        invariant
            i <= vouts@.len(),
            out@.len() == i,
            forall|j: int| 0 <= j < i ==> #[trigger] out@[j] == vouts@[j].value,
        decreases vouts@.len() - i,
    {
        out.push(vouts[i].value);
        i += 1;
    }
    assert(out@ =~= views(vouts@).map_values(|v: VoutModel| v.value));
    out
}

/// Applies one transaction of a block. Returns whether it released tokens or was logged.
pub fn apply_block_tx(state: &mut IndexerState, tx: &EsploraTxFull, h: u32, block_hash: &str) -> (r:
    bool)
    ensures
        final(state)@ == with_ledger(
            old(state)@,
            applied(old(state)@.ledger, tx_model(tx@, h, block_hash@), payload_of_tx(tx@)),
        ),
        r == touches(old(state)@.ledger, tx_model(tx@, h, block_hash@), payload_of_tx(tx@)),
{
    let payload = extract_luckyprotocol_payload_from_json(tx);
    let sender = match resolve_sender_from_json(tx) {
        Some(a) => {
            proof {
                law_sender_is_unique(tx@.vin, a@, a@);
            }
            a
        },
        None => {
            assert forall|a: Text| !is_sender(tx@.vin, a) by {
                assert(!contributes(tx@.vin, a));
            }
            String::new()
        },
    };
    assert(sender@ == sender_of(tx@.vin));
    let spent = spent_outpoints(&tx.vin);
    let op_return_vouts = op_return_indices(&tx.vout);
    let addresses = vout_addresses(&tx.vout);
    let values = vout_values(&tx.vout);
    let ctx = TxContext {
        txid: tx.txid.as_str(),
        block_height: h,
        block_hash,
        sender: sender.as_str(),
        spent_outpoints: spent.as_slice(),
        vout_count: tx.vout.len() as u32,
        op_return_vouts: op_return_vouts.as_slice(),
        vout_addresses: addresses.as_slice(),
        vout_values: values.as_slice(),
    };
    assert(ctx@ == tx_model(tx@, h, block_hash@));
    state.apply_tx(ctx, payload)
}

// ---------------------------------------------------------------------------
// One block.
// ---------------------------------------------------------------------------

/// The ledger after a block's transactions, in order.
pub open spec fn block_applied(l: LedgerModel, txs: Seq<TxFullModel>, h: u32, hash: Text) -> LedgerModel
    decreases txs.len(),
{
    if txs.len() == 0 {
        l
    } else {
        applied(
            block_applied(l, txs.drop_last(), h, hash),
            tx_model(txs.last(), h, hash),
            payload_of_tx(txs.last()),
        )
    }
}

/// How many of a block's transactions release tokens or are logged.
pub open spec fn block_touched(l: LedgerModel, txs: Seq<TxFullModel>, h: u32, hash: Text) -> nat
    decreases txs.len(),
{
    if txs.len() == 0 {
        0
    } else {
        let front = txs.drop_last();
        block_touched(l, front, h, hash) + (if touches(
            block_applied(l, front, h, hash),
            tx_model(txs.last(), h, hash),
            payload_of_tx(txs.last()),
        ) {
            1nat
        } else {
            0
        })
    }
}

/// The hashes that are kept once the block at `h` is in.
pub open spec fn hashes_kept(hashes: Map<u32, Text>, h: u32) -> Map<u32, Text> {
    if h > BLOCK_HASHES_KEPT {
        hashes.restrict(Set::new(|g: u32| h - BLOCK_HASHES_KEPT <= g))
    } else {
        hashes
    }
}

/// The ledger after a block.
pub open spec fn after_block(l: LedgerModel, txs: Seq<TxFullModel>, h: u32, hash: Text) -> LedgerModel {
    let done = block_applied(settled_ledger(l), txs, h, hash);
    LedgerModel {
        height: h,
        block_hashes: hashes_kept(done.block_hashes.insert(h, hash), h),
        ..done
    }
}

/// Whether a block's transactions are those of its header.
pub open spec fn block_verdict(b: BlockData) -> Result<(), MerkleFault> {
    merkle_verdict(block_txs(b.pages@), b.merkle_root_claimed@)
}

/// The event that reports a refused block.
pub open spec fn merkle_event(h: u32, now: u64) -> ErrorModel {
    ErrorModel {
        at: now,
        kind: ErrorKind::Merkle,
        host: None,
        height: Some(h),
        detail: "block "@ + decimal(h as nat)
            + " merkle root verification failed — Core RPC returned tx list that does not hash to the header's claimed root; block refused"@,
    }
}

/// The state after a block was refused: one more event and nothing else.
pub open spec fn after_refusal(s: StateModel, h: u32, now: u64) -> StateModel {
    StateModel {
        recent_errors: ring_push(s.recent_errors, MAX_RECENT_ERRORS as nat, merkle_event(h, now)),
        ..s
    }
}

/// The snapshot after a block that was taken in.
pub open spec fn block_snapshot(s: StateModel, h: u32, b: BlockData) -> SnapshotModel {
    SnapshotModel {
        version: SNAPSHOT_VERSION,
        ledger: after_block(s.ledger, block_txs(b.pages@), h, b.block_hash@),
    }
}

/// The state after a block was taken in.
pub open spec fn after_ingest(s: StateModel, h: u32, b: BlockData, now: u64) -> StateModel {
    let snap = block_snapshot(s, h, b);
    StateModel {
        ledger: snap.ledger,
        last_progress_at: now,
        snapshots: if h % SNAPSHOT_INTERVAL_BLOCKS == 0 {
            ring_push(s.snapshots, SNAPSHOT_RING_SIZE as nat, snap)
        } else {
            s.snapshots
        },
        ..s
    }
}

/// What came of a block that was taken in.
pub struct Ingested {
    /// How many transactions released tokens or were logged.
    pub applied_count: u64,
    /// The snapshot, where one was due.
    pub snapshot: Option<StateSnapshot>,
}

/// `done` is what comes of taking a block in.
pub open spec fn comes_of(done: Ingested, s: StateModel, h: u32, b: BlockData) -> bool {
    &&& done.applied_count == sat(
        block_touched(settled_ledger(s.ledger), block_txs(b.pages@), h, b.block_hash@),
    )
    &&& view_option(done.snapshot) == (if h % SNAPSHOT_INTERVAL_BLOCKS == 0 {
        Some(block_snapshot(s, h, b))
    } else {
        None
    })
}

fn merkle_error_event(h: u32, now: u64) -> (r: ErrorEvent)
    ensures
        r@ == merkle_event(h, now),
{
    let mut detail = "block ".to_owned();
    push_decimal(&mut detail, h as u64);
    detail.append(
        " merkle root verification failed — Core RPC returned tx list that does not hash to the header's claimed root; block refused",
    );
    ErrorEvent { at: now, kind: ErrorKind::Merkle, host: None, height: Some(h), detail }
}

/// Applies a page of a block whose transactions up to it are `done`.
fn apply_page(
    state: &mut IndexerState,
    page: &Vec<EsploraTxFull>,
    h: u32,
    block_hash: &str,
    count: u64,
    Ghost(start): Ghost<LedgerModel>,
    Ghost(done): Ghost<Seq<TxFullModel>>,
) -> (r: u64)
    requires
        old(state)@.ledger == block_applied(start, done, h, block_hash@),
        count == sat(block_touched(start, done, h, block_hash@)),
    ensures
        final(state)@ == with_ledger(
            old(state)@,
            block_applied(start, done + views(page@), h, block_hash@),
        ),
        r == sat(block_touched(start, done + views(page@), h, block_hash@)),
{
    let ghost base = state@;
    let ghost txs = views(page@);
    let mut total: u64 = count;
    let mut i: usize = 0;
    assert(done + txs.take(0) =~= done);
    while i < page.len()
        invariant
            i <= page@.len(),
            txs == views(page@),
            state@ == with_ledger(
                base,
                block_applied(start, done + txs.take(i as int), h, block_hash@),
            ),
            total == sat(block_touched(start, done + txs.take(i as int), h, block_hash@)),
        decreases page@.len() - i,
    {
        proof {
            assert((done + txs.take(i + 1)).drop_last() =~= done + txs.take(i as int));
            assert((done + txs.take(i + 1)).last() == page@[i as int]@);
        }
        if apply_block_tx(state, &page[i], h, block_hash) {
            total = total.saturating_add(1);
        }
        i += 1;
    }
    assert(txs.take(txs.len() as int) =~= txs);
    total
}

/// Applies a block's transactions in order and counts those that release tokens or are
/// logged.
fn apply_block_txs(state: &mut IndexerState, h: u32, block: &BlockData) -> (r: u64)
    ensures
        final(state)@ == with_ledger(
            old(state)@,
            block_applied(old(state)@.ledger, block_txs(block.pages@), h, block.block_hash@),
        ),
        r == sat(
            block_touched(old(state)@.ledger, block_txs(block.pages@), h, block.block_hash@),
        ),
{
    let ghost base = state@;
    let ghost start = base.ledger;
    let mut count: u64 = 0;
    let mut p: usize = 0;
    assert(block.pages@.take(0) =~= Seq::empty());
    while p < block.pages.len()
        invariant
            p <= block.pages@.len(),
            start == base.ledger,
            state@ == with_ledger(
                base,
                block_applied(
                    start,
                    block_txs(block.pages@.take(p as int)),
                    h,
                    block.block_hash@,
                ),
            ),
            count == sat(
                block_touched(
                    start,
                    block_txs(block.pages@.take(p as int)),
                    h,
                    block.block_hash@,
                ),
            ),
        decreases block.pages@.len() - p,
    {
        let ghost done = block_txs(block.pages@.take(p as int));
        assert(block.pages@.take(p + 1).drop_last() =~= block.pages@.take(p as int));
        assert(block_txs(block.pages@.take(p + 1)) == done + views(block.pages@[p as int].1@));
        count = apply_page(
            state,
            &block.pages[p].1,
            h,
            &block.block_hash,
            count,
            Ghost(start),
            Ghost(done),
        );
        p += 1;
    }
    assert(block.pages@.take(block.pages@.len() as int) =~= block.pages@);
    count
}

/// Takes a block in: checks it against its header, applies its transactions in order,
/// advances the indexed height, and takes a snapshot where one is due. A block that does
/// not match its header is refused: an event is kept and nothing else changes.
pub fn ingest_block(state: &mut IndexerState, h: u32, block: &BlockData, now: u64) -> (r: Result<
    Ingested,
    MerkleError,
>)
    ensures
        match block_verdict(*block) {
            Err(fault) => {
                &&& r matches Err(e) && e@ == fault
                &&& final(state)@ == after_refusal(old(state)@, h, now)
            },
            Ok(_) => {
                &&& r matches Ok(done) && comes_of(done, old(state)@, h, *block)
                &&& final(state)@ == after_ingest(old(state)@, h, *block, now)
            },
        },
{
    match verify_block_merkle_root(&block.pages, &block.merkle_root_claimed) {
        Ok(_) => {},
        Err(e) => {
            state.push_error(merkle_error_event(h, now));
            return Err(e);
        },
    }
    state.advance_settlement(h, &block.block_hash);
    let applied_count: u64 = apply_block_txs(state, h, block);
    state.indexed_height = h;
    state.touch_progress_at(now);
    record_hash(&mut state.block_hashes, h, block.block_hash.clone());
    if h > BLOCK_HASHES_KEPT {
        state.prune_block_hashes(h - BLOCK_HASHES_KEPT);
    }
    let snapshot = if h % SNAPSHOT_INTERVAL_BLOCKS == 0 {
        Some(state.take_snapshot())
    } else {
        None
    };
    Ok(Ingested { applied_count, snapshot })
}

// ---------------------------------------------------------------------------
// A range of blocks.
// ---------------------------------------------------------------------------

/// How a scan goes on after one height.
pub enum ScanStep {
    /// With the block at this height.
    Next { height: u32 },
    /// Not at all: the range is scanned.
    Done,
    /// Not at all: the block could not be had, or it was refused. The same height is tried
    /// again by a later scan.
    Stop { fault: Option<MerkleError> },
}

/// The state after one height of a scan: a block that could not be had changes nothing.
pub open spec fn after_fetch(s: StateModel, h: u32, fetched: Option<BlockData>, now: u64) -> StateModel {
    match fetched {
        None => s,
        Some(b) => if block_verdict(b) is Ok {
            after_ingest(s, h, b, now)
        } else {
            after_refusal(s, h, now)
        },
    }
}

/// Takes in the block at `h` of a scan that ends at `to`, where it could be had, and says
/// how the scan goes on.
pub fn scan_step(
    state: &mut IndexerState,
    h: u32,
    to: u32,
    fetched: Option<&BlockData>,
    now: u64,
) -> (r: (ScanStep, Option<Ingested>))
    ensures
        match fetched {
            None => {
                &&& r.0 matches ScanStep::Stop { fault: None }
                &&& r.1 is None
                &&& final(state)@ == old(state)@
            },
            Some(b) => match block_verdict(*b) {
                Err(why) => {
                    &&& r.0 matches ScanStep::Stop { fault: Some(e) } && e@ == why
                    &&& r.1 is None
                    &&& final(state)@ == after_refusal(old(state)@, h, now)
                },
                Ok(_) => {
                    &&& if h < to {
                        r.0 matches ScanStep::Next { height } && height == h + 1
                    } else {
                        r.0 is Done
                    }
                    &&& r.1 matches Some(done) && comes_of(done, old(state)@, h, *b)
                    &&& final(state)@ == after_ingest(old(state)@, h, *b, now)
                },
            },
        },
        final(state)@ == after_fetch(
            old(state)@,
            h,
            (match fetched {
                Some(b) => Some(*b),
                None => None,
            }),
            now,
        ),
{
    match fetched {
        None => (ScanStep::Stop { fault: None }, None),
        Some(b) => match ingest_block(state, h, b, now) {
            Err(e) => (ScanStep::Stop { fault: Some(e) }, None),
            Ok(done) => if h < to {
                (ScanStep::Next { height: h + 1 }, Some(done))
            } else {
                (ScanStep::Done, Some(done))
            },
        },
    }
}

// ---------------------------------------------------------------------------
// Reorganizations.
// ---------------------------------------------------------------------------

/// The recorded hashes of the heights `from` to `to`, in ascending order.
pub open spec fn recorded(hashes: Map<u32, Text>, from: int, to: int) -> Seq<(u32, Text)>
    decreases to - from + 1,
{
    if to < from {
        Seq::empty()
    } else if hashes.contains_key(to as u32) {
        recorded(hashes, from, to - 1).push((to as u32, hashes[to as u32]))
    } else {
        recorded(hashes, from, to - 1)
    }
}

/// The hashes that are compared with the chain: those of the last `REORG_HORIZON`
/// heights, oldest first. Before any block there is nothing to compare.
pub open spec fn probes_of(l: LedgerModel) -> Seq<(u32, Text)> {
    if l.height == 0 {
        Seq::empty()
    } else {
        let from = if l.height < REORG_HORIZON - 1 {
            0int
        } else {
            l.height - (REORG_HORIZON - 1)
        };
        recorded(l.block_hashes, from, l.height as int)
    }
}

/// Heights and hashes with the hashes as characters.
pub open spec fn probes_view(s: Seq<(u32, String)>) -> Seq<(u32, Text)> {
    s.map_values(|p: (u32, String)| (p.0, p.1@))
}

/// The hashes to compare with the chain.
pub fn reorg_probes(state: &IndexerState) -> (r: Vec<(u32, String)>)
    ensures
        probes_view(r@) == probes_of(state@.ledger),
{
    let mut out: Vec<(u32, String)> = Vec::new();
    assert(probes_view(out@) =~= Seq::empty());
    let top: u32 = state.indexed_height;
    if top == 0 {
        return out;
    }
    let from: u32 = top.saturating_sub(REORG_HORIZON - 1);
    let mut h: u32 = from;
    loop
        invariant_except_break
            from <= h <= top,
            probes_view(out@) == recorded(hashes_of(state.block_hashes@), from as int, h - 1),
        ensures
            probes_view(out@) == recorded(hashes_of(state.block_hashes@), from as int, top as int),
        decreases top - h,
    {
        let ghost before = out@;
        if let Some(hash) = hash_at(&state.block_hashes, h) {
            out.push((h, hash.clone()));
            assert(probes_view(out@) =~= probes_view(before).push(
                (h, hashes_of(state.block_hashes@)[h]),
            ));
        }
        if h == top {
            break ;
        }
        h += 1;
    }
    out
}

/// What the node answered about one height: the hash, or why there is none.
pub open spec fn answer_at(answers: Seq<Result<String, String>>, i: int) -> Result<Text, Text> {
    if i < answers.len() {
        match answers[i] {
            Ok(h) => Ok(h@),
            Err(e) => Err(e@),
        }
    } else {
        Err(Seq::empty())
    }
}

/// The first height, from position `i` on, at which the chain has another hash than the
/// one recorded. The first height without an answer ends the comparison with the reason.
pub open spec fn divergence(
    probes: Seq<(u32, Text)>,
    answers: Seq<Result<String, String>>,
    i: int,
) -> Result<Option<u32>, Text>
    decreases probes.len() - i,
{
    if i >= probes.len() {
        Ok(None)
    } else {
        match answer_at(answers, i) {
            Err(why) => Err(why),
            Ok(hash) => if hash == probes[i].1 {
                divergence(probes, answers, i + 1)
            } else {
                Ok(Some(probes[i].0))
            },
        }
    }
}

/// An outcome with its error as characters.
pub open spec fn divergence_view(r: Result<Option<u32>, String>) -> Result<Option<u32>, Text> {
    match r {
        Ok(h) => Ok(h),
        Err(e) => Err(e@),
    }
}

/// Compares recorded hashes with the node's answers, oldest first.
pub fn first_divergence(
    probes: &Vec<(u32, String)>,
    answers: &Vec<Result<String, String>>,
) -> (r: Result<Option<u32>, String>)
    ensures
        divergence_view(r) == divergence(probes_view(probes@), answers@, 0),
{
    let ghost all = probes_view(probes@);
    let mut i: usize = 0;
    while i < probes.len()
        invariant
            i <= probes@.len(),
            all == probes_view(probes@),
            divergence(all, answers@, 0) == divergence(all, answers@, i as int),
        decreases probes@.len() - i,
    {
        if i >= answers.len() {
            return Err(String::new());
        }
        match &answers[i] {
            Ok(hash) => {
                if !same_text(hash, &probes[i].1) {
                    return Ok(Some(probes[i].0));
                }
            },
            Err(why) => {
                return Err(why.clone());
            },
        }
        i += 1;
    }
    Ok(None)
}

/// The heights of the snapshots, oldest first.
pub fn snapshot_heights(state: &IndexerState) -> (r: Vec<u32>)
    ensures
        r@ == state@.snapshots.map_values(|s: SnapshotModel| s.ledger.height),
{
    let mut out: Vec<u32> = Vec::new();
    let mut i: usize = 0;
    while i < state.snapshots.len()
        invariant
            i <= state.snapshots@.len(),
            out@.len() == i,
            forall|j: int| 0 <= j < i ==> #[trigger] out@[j] == state.snapshots@[j]@.ledger.height,
        decreases state.snapshots@.len() - i,
    {
        out.push(state.snapshots[i].indexed_height);
        i += 1;
    }
    assert(out@ =~= state@.snapshots.map_values(|s: SnapshotModel| s.ledger.height));
    out
}

/// The hashes that the node gave for the first `n` heights; heights without an answer
/// are left out.
pub open spec fn answered(
    heights: Seq<u32>,
    answers: Seq<Result<String, String>>,
    n: int,
) -> Map<u32, Text>
    decreases n,
{
    if n <= 0 {
        Map::empty()
    } else {
        match answer_at(answers, n - 1) {
            Ok(hash) => answered(heights, answers, n - 1).insert(heights[n - 1], hash),
            Err(_) => answered(heights, answers, n - 1),
        }
    }
}

/// The hashes that the node gave, by height.
pub fn canonical_hashes(heights: &Vec<u32>, answers: &Vec<Result<String, String>>) -> (r: HashMap<
    u32,
    String,
>)
    ensures
        hashes_of(r@) == answered(heights@, answers@, heights@.len() as int),
{
    let mut out = no_hashes();
    let mut i: usize = 0;
    while i < heights.len()
        invariant
            i <= heights@.len(),
            hashes_of(out@) == answered(heights@, answers@, i as int),
        decreases heights@.len() - i,
    {
        if i < answers.len() {
            if let Ok(hash) = &answers[i] {
                record_hash(&mut out, heights[i], hash.clone());
            }
        }
        i += 1;
    }
    out
}

// ---------------------------------------------------------------------------
// Snapshots from disk.
// ---------------------------------------------------------------------------

/// The heights at which a snapshot is held against the chain: the latest that it has, as
/// many as the horizon reaches, latest first.
pub open spec fn probes_of_snapshot(hashes: Map<u32, Text>) -> Seq<u32> {
    latest_from(hashes, u32::MAX as int, REORG_HORIZON as nat)
}

/// The heights at which a snapshot is held against the chain before it is used.
pub fn snapshot_probes(snap: &StateSnapshot) -> (r: Vec<u32>)
    ensures
        r@ == probes_of_snapshot(snap@.ledger.block_hashes),
{
    latest_heights(&snap.block_hashes, REORG_HORIZON as usize)
}

/// Whether each height has the hash that the snapshot has, whatever its case. The first
/// height that has another, or has no answer, decides.
pub open spec fn snapshot_verdict(
    hashes: Map<u32, Text>,
    heights: Seq<u32>,
    answers: Seq<Result<String, String>>,
    i: int,
) -> Result<bool, Text>
    decreases heights.len() - i,
{
    if i >= heights.len() {
        Ok(true)
    } else if !hashes.contains_key(heights[i]) {
        snapshot_verdict(hashes, heights, answers, i + 1)
    } else {
        match answer_at(answers, i) {
            Err(why) => Err(why),
            Ok(hash) => if ascii_lower(hashes[heights[i]]) == ascii_lower(hash) {
                snapshot_verdict(hashes, heights, answers, i + 1)
            } else {
                Ok(false)
            },
        }
    }
}

/// Holds a snapshot's hashes against the node's answers at the heights that
/// `snapshot_probes` gives: `true` where all agree, `false` where one differs, and the
/// reason where one is missing. Only the first lets the snapshot be used.
pub fn validate_snapshot_against_canonical(
    snap: &StateSnapshot,
    answers: &Vec<Result<String, String>>,
) -> (r: Result<bool, String>)
    ensures
        (match r {
            Ok(b) => Ok::<bool, Text>(b),
            Err(e) => Err(e@),
        }) == snapshot_verdict(
            snap@.ledger.block_hashes,
            probes_of_snapshot(snap@.ledger.block_hashes),
            answers@,
            0,
        ),
{
    let ghost hashes = snap@.ledger.block_hashes;
    let heights = snapshot_probes(snap);
    let mut i: usize = 0;
    while i < heights.len()
        invariant
            i <= heights@.len(),
            hashes == hashes_of(snap.block_hashes@),
            hashes == snap@.ledger.block_hashes,
            heights@ == probes_of_snapshot(hashes),
            snapshot_verdict(hashes, heights@, answers@, 0) == snapshot_verdict(
                hashes,
                heights@,
                answers@,
                i as int,
            ),
        decreases heights@.len() - i,
    {
        if let Some(stored) = hash_at(&snap.block_hashes, heights[i]) {
            if i >= answers.len() {
                return Err(String::new());
            }
            match &answers[i] {
                Ok(hash) => {
                    if !same_ignoring_ascii_case(stored, hash) {
                        return Ok(false);
                    }
                },
                Err(why) => {
                    return Err(why.clone());
                },
            }
        }
        i += 1;
    }
    Ok(true)
}

/// Whether a snapshot has the layout of this version.
pub fn has_current_version(snap: &StateSnapshot) -> (r: bool)
    ensures
        r == (snap@.version == SNAPSHOT_VERSION),
{
    snap.version == SNAPSHOT_VERSION
}

// ---------------------------------------------------------------------------
// What holds of blocks.
// ---------------------------------------------------------------------------

/// A block keeps the supply cap.
pub proof fn law_block_keeps_supply_capped(
    l: LedgerModel,
    txs: Seq<TxFullModel>,
    h: u32,
    hash: Text,
)
    requires
        backed(l),
    ensures
        backed(after_block(l, txs, h, hash)),
{
    let s = settled_ledger(l);
    assert(backed(s));
    lemma_block_backed(s, txs, h, hash);
}

proof fn lemma_block_backed(l: LedgerModel, txs: Seq<TxFullModel>, h: u32, hash: Text)
    requires
        backed(l),
    ensures
        backed(block_applied(l, txs, h, hash)),
    decreases txs.len(),
{
    if txs.len() > 0 {
        lemma_block_backed(l, txs.drop_last(), h, hash);
        law_supply_is_capped(
            block_applied(l, txs.drop_last(), h, hash),
            tx_model(txs.last(), h, hash),
            payload_of_tx(txs.last()),
        );
    }
}

/// No transaction of the block meets one of its own outputs under another address, and
/// the logs' numbers last.
pub open spec fn block_fits(l: LedgerModel, txs: Seq<TxFullModel>, h: u32, hash: Text) -> bool
    decreases txs.len(),
{
    txs.len() > 0 ==> {
        let before = block_applied(l, txs.drop_last(), h, hash);
        &&& block_fits(l, txs.drop_last(), h, hash)
        &&& numbers_left(before)
        &&& addresses_agree(before, tx_model(txs.last(), h, hash))
    }
}

/// A block keeps a ledger sound.
pub proof fn law_block_keeps_ledger_sound(
    l: LedgerModel,
    txs: Seq<TxFullModel>,
    h: u32,
    hash: Text,
)
    requires
        sound(l),
        block_fits(settled_ledger(l), txs, h, hash),
    ensures
        sound(after_block(l, txs, h, hash)),
{
    let s = settled_ledger(l);
    assert(logs_linked(s)) by {
        assert forall|i: int| 0 <= i < s.bets.len() implies (#[trigger] s.bets[i]).txid
            == l.bets[i].txid by {}
        assert forall|t: Text| #[trigger] s.by_txid.contains_key(t) implies found(
            s,
            t,
            s.by_txid[t],
        ) by {
            assert(found(l, t, l.by_txid[t]));
        }
    }
    assert(sound(s));
    lemma_block_sound(s, txs, h, hash);
    let done = block_applied(s, txs, h, hash);
    let after = after_block(l, txs, h, hash);
    assert forall|t: Text| #[trigger] after.by_txid.contains_key(t) implies found(
        after,
        t,
        after.by_txid[t],
    ) by {
        assert(found(done, t, done.by_txid[t]));
    }
}

proof fn lemma_block_sound(l: LedgerModel, txs: Seq<TxFullModel>, h: u32, hash: Text)
    requires
        sound(l),
        block_fits(l, txs, h, hash),
    ensures
        sound(block_applied(l, txs, h, hash)),
    decreases txs.len(),
{
    if txs.len() > 0 {
        lemma_block_sound(l, txs.drop_last(), h, hash);
        lemma_payloads_move(txs.last());
        law_soundness_is_kept(
            block_applied(l, txs.drop_last(), h, hash),
            tx_model(txs.last(), h, hash),
            payload_of_tx(txs.last()),
        );
    }
}

proof fn lemma_payloads_move(tx: TxFullModel)
    ensures
        moves(payload_of_tx(tx)),
{
    let carriers = op_returns(tx.vout);
    if carriers.len() == 1 {
        if let Some(b) = hex_bytes(carriers[0].script) {
            if let Some(p) = pushed(b) {
                law_decoded_payloads_are_in_bounds(p);
            }
        }
    }
}

/// A block that is in is on record under its hash, and so are the blocks before it as far
/// as hashes are kept.
pub proof fn law_block_is_recorded(l: LedgerModel, txs: Seq<TxFullModel>, h: u32, hash: Text, g: u32)
    requires
        h - BLOCK_HASHES_KEPT <= g,
    ensures
        ({
            let after = after_block(l, txs, h, hash);
            &&& after.height == h
            &&& after.block_hashes.contains_key(h) && after.block_hashes[h] == hash
            &&& g != h ==> after.block_hashes.contains_key(g) == l.block_hashes.contains_key(g)
            &&& g != h && l.block_hashes.contains_key(g) ==> after.block_hashes[g]
                == l.block_hashes[g]
        }),
{
    lemma_block_keeps_hashes(settled_ledger(l), txs, h, hash);
}

proof fn lemma_block_keeps_hashes(l: LedgerModel, txs: Seq<TxFullModel>, h: u32, hash: Text)
    ensures
        block_applied(l, txs, h, hash).block_hashes == l.block_hashes,
    decreases txs.len(),
{
    if txs.len() > 0 {
        lemma_block_keeps_hashes(l, txs.drop_last(), h, hash);
    }
}

/// A block as the ledger takes it in.
pub ghost struct BlockModel {
    pub height: u32,
    pub hash: Text,
    pub txs: Seq<TxFullModel>,
}

/// The ledger after blocks, in order.
pub open spec fn blocks_applied(l: LedgerModel, blocks: Seq<BlockModel>) -> LedgerModel
    decreases blocks.len(),
{
    if blocks.len() == 0 {
        l
    } else {
        let b = blocks.last();
        after_block(blocks_applied(l, blocks.drop_last()), b.txs, b.height, b.hash)
    }
}

/// Going on from a snapshot gives what a scan of all blocks gives: where a snapshot was
/// taken after `old_blocks`, scanning `new_blocks` from it leads to the same ledger as
/// scanning both from the start.
pub proof fn law_resuming_equals_full_scan(
    start: LedgerModel,
    old_blocks: Seq<BlockModel>,
    new_blocks: Seq<BlockModel>,
)
    ensures
        blocks_applied(blocks_applied(start, old_blocks), new_blocks) == blocks_applied(
            start,
            old_blocks + new_blocks,
        ),
    decreases new_blocks.len(),
{
    let all = old_blocks + new_blocks;
    if new_blocks.len() == 0 {
        assert(all =~= old_blocks);
    } else {
        law_resuming_equals_full_scan(start, old_blocks, new_blocks.drop_last());
        assert(all.drop_last() =~= old_blocks + new_blocks.drop_last());
        assert(all.last() == new_blocks.last());
    }
}

/// What a scan got for one height, and when.
pub ghost struct Fetched {
    pub block: Option<BlockData>,
    pub now: u64,
}

/// The block could be had and is the one of its header.
pub open spec fn is_good(f: Fetched) -> bool {
    f.block is Some && block_verdict(f.block->0) is Ok
}

/// The state after a scan from `h` on: step by step, up to and with the first block that
/// is not good.
pub open spec fn scanned(s: StateModel, h: u32, list: Seq<Fetched>) -> StateModel
    decreases list.len(),
{
    if list.len() == 0 {
        s
    } else {
        let after = after_fetch(s, h, list[0].block, list[0].now);
        if is_good(list[0]) {
            scanned(after, (h + 1) as u32, list.skip(1))
        } else {
            after
        }
    }
}

/// A scan that begins with a good block goes on after it.
proof fn lemma_scanned_first(s: StateModel, h: u32, list: Seq<Fetched>)
    requires
        list.len() > 0,
        is_good(list[0]),
    ensures
        scanned(s, h, list) == scanned(
            after_ingest(s, h, list[0].block->0, list[0].now),
            (h + 1) as u32,
            list.skip(1),
        ),
{
}

/// A scan that begins with a block that is not good ends with it.
proof fn lemma_scanned_bad(s: StateModel, h: u32, list: Seq<Fetched>)
    requires
        list.len() > 0,
        !is_good(list[0]),
    ensures
        scanned(s, h, list) == (if list[0].block is None {
            s
        } else {
            after_refusal(s, h, list[0].now)
        }),
{
}

/// A scan stops at the first block that could not be had or is refused: the state is that
/// of a scan of the blocks before it, with at most one more event. Nothing of that block
/// or of a later one reaches the derived state.
#[verifier::spinoff_prover]
pub proof fn law_scan_stops_at_the_first_bad_block(s: StateModel, h: u32, list: Seq<Fetched>, k: int)
    requires
        0 <= k < list.len(),
        h + list.len() <= u32::MAX,
        forall|i: int| 0 <= i < k ==> is_good(#[trigger] list[i]),
        !is_good(list[k]),
    ensures
        ({
            let before = scanned(s, h, list.take(k));
            let after = scanned(s, h, list);
            &&& after == (if list[k].block is None {
                before
            } else {
                after_refusal(before, (h + k) as u32, list[k].now)
            })
            &&& after.ledger == before.ledger
            &&& after.snapshots == before.snapshots
        }),
    decreases list.len(),
{
    if k == 0 {
        assert(list.take(0) =~= Seq::empty());
        lemma_scanned_bad(s, h, list);
    } else {
        let rest = list.skip(1);
        let front = list.take(k);
        let after = after_ingest(s, h, list[0].block->0, list[0].now);
        assert(front[0] == list[0]);
        assert(front.skip(1) =~= rest.take(k - 1));
        lemma_scanned_first(s, h, list);
        lemma_scanned_first(s, h, front);
        assert forall|i: int| 0 <= i < k - 1 implies is_good(#[trigger] rest[i]) by {
            assert(is_good(list[i + 1]));
        }
        law_scan_stops_at_the_first_bad_block(after, (h + 1) as u32, rest, k - 1);
    }
}

/// The blocks of a scan from `h` on as the ledger takes them in.
pub open spec fn scan_blocks(h: u32, list: Seq<Fetched>) -> Seq<BlockModel> {
    Seq::new(
        list.len(),
        |i: int|
            BlockModel {
                height: (h + i) as u32,
                hash: list[i].block->0.block_hash@,
                txs: block_txs(list[i].block->0.pages@),
            },
    )
}

/// The first of several blocks is applied first.
proof fn lemma_blocks_first(l: LedgerModel, blocks: Seq<BlockModel>)
    requires
        blocks.len() > 0,
    ensures
        blocks_applied(l, blocks) == blocks_applied(
            after_block(l, blocks[0].txs, blocks[0].height, blocks[0].hash),
            blocks.skip(1),
        ),
{
    let first = seq![blocks[0]];
    assert(blocks =~= first + blocks.skip(1));
    law_resuming_equals_full_scan(l, first, blocks.skip(1));
    assert(first.drop_last() =~= Seq::empty());
    assert(blocks_applied(l, first.drop_last()) == l);
}

/// A scan takes good blocks in, each once and in order.
#[verifier::spinoff_prover]
pub proof fn law_scan_takes_good_blocks_in_order(s: StateModel, h: u32, list: Seq<Fetched>)
    requires
        h + list.len() <= u32::MAX,
        forall|i: int| 0 <= i < list.len() ==> is_good(#[trigger] list[i]),
    ensures
        scanned(s, h, list).ledger == blocks_applied(s.ledger, scan_blocks(h, list)),
    decreases list.len(),
{
    if list.len() > 0 {
        let rest = list.skip(1);
        let after = after_ingest(s, h, list[0].block->0, list[0].now);
        assert forall|i: int| 0 <= i < rest.len() implies is_good(#[trigger] rest[i]) by {
            assert(is_good(list[i + 1]));
        }
        lemma_scanned_first(s, h, list);
        law_scan_takes_good_blocks_in_order(after, (h + 1) as u32, rest);
        lemma_blocks_first(s.ledger, scan_blocks(h, list));
        assert(scan_blocks(h, list).skip(1) =~= scan_blocks((h + 1) as u32, rest));
    }
}

/// The divergence that is reported is the deepest: the chain agrees at every height
/// before it that is compared, and differs there. Where none is reported and every
/// answer came, the chain agrees everywhere.
pub proof fn law_divergence_is_the_deepest(
    probes: Seq<(u32, Text)>,
    answers: Seq<Result<String, String>>,
    from: int,
)
    requires
        0 <= from <= probes.len(),
    ensures
        match divergence(probes, answers, from) {
            Ok(Some(h)) => exists|i: int|
                {
                    &&& from <= i < probes.len()
                    &&& (#[trigger] probes[i]).0 == h
                    &&& answer_at(answers, i) matches Ok(x) && x != probes[i].1
                    &&& forall|j: int|
                        from <= j < i ==> answer_at(answers, j) == Ok::<Text, Text>(
                            (#[trigger] probes[j]).1,
                        )
                },
            Ok(None) => forall|j: int|
                from <= j < probes.len() ==> answer_at(answers, j) == Ok::<Text, Text>(
                    (#[trigger] probes[j]).1,
                ),
            Err(_) => exists|i: int|
                from <= i < probes.len() && #[trigger] answer_at(answers, i) is Err,
        },
    decreases probes.len() - from,
{
    if from < probes.len() {
        if answer_at(answers, from) == Ok::<Text, Text>(probes[from].1) {
            law_divergence_is_the_deepest(probes, answers, from + 1);
            if let Ok(Some(h)) = divergence(probes, answers, from + 1) {
                let i = choose|i: int|
                    {
                        &&& from + 1 <= i < probes.len()
                        &&& (#[trigger] probes[i]).0 == h
                        &&& answer_at(answers, i) matches Ok(x) && x != probes[i].1
                        &&& forall|j: int|
                            from + 1 <= j < i ==> answer_at(answers, j) == Ok::<Text, Text>(
                                (#[trigger] probes[j]).1,
                            )
                    };
                assert(from <= i < probes.len() && probes[i].0 == h);
            }
        } else {
            assert(probes[from].0 == probes[from].0);
        }
    }
}

} // verus!
