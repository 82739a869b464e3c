//! The indexer's state: its records, snapshots, and the queries on them.
//!
//! Tokens are held by unspent outputs, not by addresses. What one transaction does to the
//! state stands in `apply`; `ledger` says it in mathematical terms.
use std::collections::{HashMap, VecDeque};
use vstd::prelude::*;

use crate::heights::{hash_at, keep_from, no_hashes};
use crate::protocol::is_hit;
use crate::strmap::{Duplicate, StrMap, StrSet};
use crate::text::{chars_of, find_text, push_decimal, same_text, text_of, to_lowercase};
use crate::views::{copy_queue, copy_text};

verus! {

use crate::heights::hashes_of;
use crate::ledger::{
    amount_in, empty_ledger, merged, outpoint, outpoints_of, sat, Balances, BetModel, DeployModel, LedgerModel,
    Text, TokenModel, TransferModel, TxModel, UtxoModel,
};
use crate::protocol::hit;
use crate::strmap::{lists_keys, lists_set};
use crate::sums::{lemma_sum_insert, sum_over};
use crate::text::{contains_text, first_at};
use crate::views::{lemma_views_push, lemma_views_subrange, view_option, views};

/// How many blocks apart full snapshots are taken.
pub const SNAPSHOT_INTERVAL_BLOCKS: u32 = 12;

/// How many snapshots are kept.
pub const SNAPSHOT_RING_SIZE: usize = 8;

/// Most wagers in the log.
pub const MAX_BETS_VEC: usize = 100_000;

/// Most transfers in the log.
pub const MAX_TRANSFERS_VEC: usize = 100_000;

/// Most deployments in the log.
pub const MAX_DEPLOYS_VEC: usize = 10_000;

/// Most diagnostic events kept.
pub const MAX_RECENT_ERRORS: usize = 16;

/// Seconds without progress after which an indexer behind the tip counts as stalled.
pub const STALL_THRESHOLD_SECS: u64 = 120;

/// Left from a settlement scheme in which wagers could expire.
pub const BET_EXPIRY_BLOCKS: u32 = 1008;

/// Version of the snapshot layout. A snapshot of any other version is refused.
pub const SNAPSHOT_VERSION: u32 = 10;

// ---------------------------------------------------------------------------
// Diagnostics.
// ---------------------------------------------------------------------------

/// What kind of failure a diagnostic event reports.
#[derive(Debug, Clone, Copy, PartialEq, Eq, Structural)]
pub enum ErrorKind {
    /// A block's transactions do not hash to the root in its header.
    Merkle,
    /// A request to the node failed.
    Network,
    /// The node refused a request for its rate.
    RateLimit,
    /// The node reported a tip below the indexed height.
    TipRegress,
    /// Too many reorganizations in a short time.
    ReorgStorm,
}

/// A diagnostic event.
#[derive(Debug, PartialEq, Eq)]
pub struct ErrorEvent {
    /// Unix seconds.
    pub at: u64,
    pub kind: ErrorKind,
    /// The host that failed, where one did.
    pub host: Option<String>,
    /// The block concerned, where there is one.
    pub height: Option<u32>,
    /// One line of detail, free of secrets.
    pub detail: String,
}

/// A diagnostic event with its texts as characters.
pub ghost struct ErrorModel {
    pub at: u64,
    pub kind: ErrorKind,
    pub host: Option<Text>,
    pub height: Option<u32>,
    pub detail: Text,
}

impl View for ErrorEvent {
    type V = ErrorModel;

    open spec fn view(&self) -> ErrorModel {
        ErrorModel {
            at: self.at,
            kind: self.kind,
            host: view_option(self.host),
            height: self.height,
            detail: self.detail@,
        }
    }
}

impl Clone for ErrorEvent {
    fn clone(&self) -> (r: ErrorEvent)
        ensures
            r@ == self@,
    {
        ErrorEvent {
            at: self.at,
            kind: self.kind,
            host: copy_text(&self.host),
            height: self.height,
            detail: self.detail.clone(),
        }
    }
}

impl Duplicate for ErrorEvent {
    fn duplicate(&self) -> (r: ErrorEvent) {
        self.clone()
    }
}

/// Reads the system clock through `SystemTime::elapsed` on the Unix epoch, in whole
/// seconds; `None` where the clock stands before the epoch. Nothing is claimed of the
/// time it shows.
#[verifier::external_body]
fn read_clock() -> Option<u64> {
    std::time::UNIX_EPOCH.elapsed().ok().map(|d| d.as_secs())
}

/// A reading of the clock as Unix seconds, zero before the epoch.
pub fn unix_seconds(reading: Option<u64>) -> (r: u64)
    ensures
        r == (match reading {
            Some(s) => s,
            None => 0,
        }),
{
    match reading {
        Some(s) => s,
        None => 0,
    }
}

/// The present time in Unix seconds; zero where the clock stands before the epoch.
pub fn now_unix() -> u64 {
    unix_seconds(read_clock())
}

/// What stands before an API key in a URL.
pub const KEY_MARKER: &'static str = "alchemy.com/v2/";

/// What an API key is replaced by.
pub const KEY_REDACTED: &'static str = "<KEY-REDACTED>";

/// Where the key in a URL begins.
pub open spec fn key_start(url: Text) -> int {
    (choose|i: int| first_at(url, KEY_MARKER@, i)) + KEY_MARKER@.len()
}

/// A key ends before position `k`: at the first slash, or with the text.
pub open spec fn ends_key(rest: Text, k: int) -> bool {
    &&& 0 <= k <= rest.len()
    &&& forall|j: int| 0 <= j < k ==> rest[j] != '/'
    &&& k < rest.len() ==> rest[k] == '/'
}

/// The length of the key that a text begins with.
pub open spec fn key_len(rest: Text) -> int {
    choose|k: int| ends_key(rest, k)
}

/// A URL with its API key replaced.
pub open spec fn masked(url: Text) -> Text {
    if contains_text(url, KEY_MARKER@) {
        let start = key_start(url);
        let rest = url.skip(start);
        url.take(start) + KEY_REDACTED@ + rest.skip(key_len(rest))
    } else {
        url
    }
}

/// The first position of a text is unique.
pub(crate) proof fn lemma_first_at_unique(s: Text, needle: Text, i: int, j: int)
    requires
        first_at(s, needle, i),
        first_at(s, needle, j),
    ensures
        i == j,
{
}

/// The end of a key is unique.
pub(crate) proof fn lemma_ends_key_unique(rest: Text, i: int, j: int)
    requires
        ends_key(rest, i),
        ends_key(rest, j),
    ensures
        i == j,
{
}

/// Replaces the API key in a URL, so that the URL can be logged or shown.
pub fn mask_secrets(url: &str) -> (r: String)
    ensures
        r@ == masked(url@),
{
    let chars = chars_of(url);
    let marker = chars_of(KEY_MARKER);
    match find_text(&chars, &marker) {
        Some(i) => {
            let n: usize = chars.len();
            let start: usize = i + marker.len();
            let mut end: usize = start;
            while end < n && chars[end] != '/'
                invariant
                    start <= end <= n,
                    n == chars@.len(),
                    forall|j: int| start <= j < end ==> chars@[j] != '/',
                ensures
                    start <= end <= n,
                    forall|j: int| start <= j < end ==> chars@[j] != '/',
                    end < n ==> chars@[end as int] == '/',
                decreases n - end,
            {
                end += 1;
            }
            let mut out = text_of(vstd::slice::slice_subrange(chars.as_slice(), 0, start));
            out.append(KEY_REDACTED);
            let tail = text_of(vstd::slice::slice_subrange(chars.as_slice(), end, n));
            out.append(&tail);
            proof {
                let rest = url@.skip(start as int);
                assert(contains_text(url@, KEY_MARKER@));
                lemma_first_at_unique(
                    url@,
                    KEY_MARKER@,
                    i as int,
                    choose|i: int| first_at(url@, KEY_MARKER@, i),
                );
                assert(ends_key(rest, end - start));
                lemma_ends_key_unique(rest, end - start, key_len(rest));
                assert(out@ =~= masked(url@));
            }
            out
        },
        None => {
            url.to_owned()
        },
    }
}

/// The key of an output: its transaction's id in lower case, a colon, its index.
pub fn outpoint_key(txid: &str, vout: u32) -> (r: String)
    ensures
        r@ == outpoint(txid@, vout),
{
    let mut s = to_lowercase(txid);
    s.push(':');
    push_decimal(&mut s, vout as u64);
    s
}

// ---------------------------------------------------------------------------
// Records.
// ---------------------------------------------------------------------------

/// The chain that is watched. There is only the main one.
#[derive(Debug, Clone, Copy, PartialEq, Eq, Structural)]
pub enum Network {
    Bitcoin,
}

impl Network {
    /// The network's name.
    pub fn name(&self) -> (r: &'static str)
        ensures
            r@ == "bitcoin"@,
    {
        "bitcoin"
    }
}

/// Amounts by ticker.
pub type RuneBalance = StrMap<u64>;

/// An output that carries tokens.
pub struct UtxoEntry {
    /// The address that controls it, where its script has one.
    pub address: Option<String>,
    pub balances: RuneBalance,
}

impl View for UtxoEntry {
    type V = UtxoModel;

    open spec fn view(&self) -> UtxoModel {
        UtxoModel { address: view_option(self.address), balances: self.balances@ }
    }
}

impl Clone for UtxoEntry {
    fn clone(&self) -> (r: UtxoEntry)
        ensures
            r@ == self@,
    {
        UtxoEntry { address: copy_text(&self.address), balances: self.balances.duplicate() }
    }
}

impl Duplicate for UtxoEntry {
    fn duplicate(&self) -> (r: UtxoEntry) {
        self.clone()
    }
}

/// How far a wager has come.
#[derive(Debug, Clone, Copy, PartialEq, Eq, Structural)]
pub enum BetStatus {
    /// Decided by the hash of its own block.
    Settled,
    /// Refused: no such ticker, no output for the winnings, no fee, or mixed inputs.
    Invalid,
    /// Only in old snapshots; settled when the next block comes.
    LegacyPending,
    /// Only in old snapshots.
    LegacyExpired,
}

/// A logged wager.
#[derive(Debug, PartialEq, Eq)]
pub struct BetView {
    pub txid: String,
    pub block_height: u32,
    pub block_hash: String,
    pub sender: String,
    pub tier: String,
    pub pick: String,
    pub ticker: String,
    /// The output meant for the winnings.
    pub win_out_idx: u32,
    /// The output meant for tokens that the transaction spends, where one is named.
    pub change_out_idx: Option<u32>,
    pub status: BetStatus,
    /// Unused, as is the next.
    pub reveal_block_height: Option<u32>,
    pub reveal_block_hash: Option<String>,
    /// `None` on an invalid wager.
    pub win: Option<bool>,
    /// The amount credited.
    pub reward_smallest: u64,
    /// The pick hit, but the supply was used up.
    pub cap_exhausted: bool,
}

impl View for BetView {
    type V = BetModel;

    open spec fn view(&self) -> BetModel {
        BetModel {
            txid: self.txid@,
            block_height: self.block_height,
            block_hash: self.block_hash@,
            sender: self.sender@,
            tier: self.tier@,
            pick: self.pick@,
            ticker: self.ticker@,
            win_out_idx: self.win_out_idx,
            change_out_idx: self.change_out_idx,
            status: self.status,
            reveal_block_height: self.reveal_block_height,
            reveal_block_hash: view_option(self.reveal_block_hash),
            win: self.win,
            reward_smallest: self.reward_smallest,
            cap_exhausted: self.cap_exhausted,
        }
    }
}

impl Clone for BetView {
    fn clone(&self) -> (r: BetView)
        ensures
            r@ == self@,
    {
        BetView {
            txid: self.txid.clone(),
            block_height: self.block_height,
            block_hash: self.block_hash.clone(),
            sender: self.sender.clone(),
            tier: self.tier.clone(),
            pick: self.pick.clone(),
            ticker: self.ticker.clone(),
            win_out_idx: self.win_out_idx,
            change_out_idx: self.change_out_idx,
            status: self.status,
            reveal_block_height: self.reveal_block_height,
            reveal_block_hash: copy_text(&self.reveal_block_hash),
            win: self.win,
            reward_smallest: self.reward_smallest,
            cap_exhausted: self.cap_exhausted,
        }
    }
}

impl Duplicate for BetView {
    fn duplicate(&self) -> (r: BetView) {
        self.clone()
    }
}

/// A logged transfer.
#[derive(Debug, PartialEq, Eq)]
pub struct TransferView {
    pub txid: String,
    pub block_height: u32,
    pub block_hash: String,
    pub sender: String,
    pub ticker: String,
    pub amount: u64,
    pub to_out_idx: u32,
    pub change_out_idx: Option<u32>,
    /// Whether the amount moved.
    pub applied: bool,
}

impl View for TransferView {
    type V = TransferModel;

    open spec fn view(&self) -> TransferModel {
        TransferModel {
            txid: self.txid@,
            block_height: self.block_height,
            block_hash: self.block_hash@,
            sender: self.sender@,
            ticker: self.ticker@,
            amount: self.amount,
            to_out_idx: self.to_out_idx,
            change_out_idx: self.change_out_idx,
            applied: self.applied,
        }
    }
}

impl Clone for TransferView {
    fn clone(&self) -> (r: TransferView)
        ensures
            r@ == self@,
    {
        TransferView {
            txid: self.txid.clone(),
            block_height: self.block_height,
            block_hash: self.block_hash.clone(),
            sender: self.sender.clone(),
            ticker: self.ticker.clone(),
            amount: self.amount,
            to_out_idx: self.to_out_idx,
            change_out_idx: self.change_out_idx,
            applied: self.applied,
        }
    }
}

impl Duplicate for TransferView {
    fn duplicate(&self) -> (r: TransferView) {
        self.clone()
    }
}

/// A logged deployment.
#[derive(Debug, PartialEq, Eq)]
pub struct DeployView {
    pub txid: String,
    pub block_height: u32,
    pub block_hash: String,
    pub deployer: String,
    pub ticker: String,
    pub supply: u64,
    /// Whether the ticker was registered.
    pub applied: bool,
}

impl View for DeployView {
    type V = DeployModel;

    open spec fn view(&self) -> DeployModel {
        DeployModel {
            txid: self.txid@,
            block_height: self.block_height,
            block_hash: self.block_hash@,
            deployer: self.deployer@,
            ticker: self.ticker@,
            supply: self.supply,
            applied: self.applied,
        }
    }
}

impl Clone for DeployView {
    fn clone(&self) -> (r: DeployView)
        ensures
            r@ == self@,
    {
        DeployView {
            txid: self.txid.clone(),
            block_height: self.block_height,
            block_hash: self.block_hash.clone(),
            deployer: self.deployer.clone(),
            ticker: self.ticker.clone(),
            supply: self.supply,
            applied: self.applied,
        }
    }
}

impl Duplicate for DeployView {
    fn duplicate(&self) -> (r: DeployView) {
        self.clone()
    }
}

/// A registered token.
#[derive(Debug, PartialEq, Eq)]
pub struct TokenRegistryEntry {
    pub ticker: String,
    /// Most that can be minted.
    pub supply: u64,
    /// What has been minted.
    pub minted: u64,
    pub deployer: String,
    pub deploy_txid: String,
    pub deploy_block: u32,
}

impl View for TokenRegistryEntry {
    type V = TokenModel;

    open spec fn view(&self) -> TokenModel {
        TokenModel {
            ticker: self.ticker@,
            supply: self.supply,
            minted: self.minted,
            deployer: self.deployer@,
            deploy_txid: self.deploy_txid@,
            deploy_block: self.deploy_block,
        }
    }
}

impl Clone for TokenRegistryEntry {
    fn clone(&self) -> (r: TokenRegistryEntry)
        ensures
            r@ == self@,
    {
        TokenRegistryEntry {
            ticker: self.ticker.clone(),
            supply: self.supply,
            minted: self.minted,
            deployer: self.deployer.clone(),
            deploy_txid: self.deploy_txid.clone(),
            deploy_block: self.deploy_block,
        }
    }
}

impl Duplicate for TokenRegistryEntry {
    fn duplicate(&self) -> (r: TokenRegistryEntry) {
        self.clone()
    }
}

/// Where a transaction is logged: in which log and at which logical index.
#[derive(Debug, Clone, Copy, PartialEq, Eq, Structural)]
pub enum EntryRef {
    Bet { idx: u64 },
    Transfer { idx: u64 },
    Deploy { idx: u64 },
}

impl View for EntryRef {
    type V = EntryRef;

    open spec fn view(&self) -> EntryRef {
        *self
    }
}

impl Duplicate for EntryRef {
    fn duplicate(&self) -> (r: EntryRef) {
        *self
    }
}

/// What `apply_tx` reads of a transaction.
pub struct TxContext<'a> {
    pub txid: &'a str,
    pub block_height: u32,
    pub block_hash: &'a str,
    /// The address that put in the most value. It is logged and authorizes nothing.
    pub sender: &'a str,
    /// The outputs that are spent.
    pub spent_outpoints: &'a [(String, u32)],
    /// The number of outputs.
    pub vout_count: u32,
    /// Indices of the `OP_RETURN` outputs, which can hold no tokens.
    pub op_return_vouts: &'a [u32],
    /// The address of each output, where its script has one.
    pub vout_addresses: &'a [Option<String>],
    /// The sats that each output pays.
    pub vout_values: &'a [u64],
}

/// Outpoints with their texts as characters.
pub open spec fn outpoints_view(s: Seq<(String, u32)>) -> Seq<(Text, u32)> {
    s.map_values(|p: (String, u32)| (p.0@, p.1))
}

/// Optional texts as characters.
pub open spec fn optional_texts(s: Seq<Option<String>>) -> Seq<Option<Text>> {
    s.map_values(|o: Option<String>| view_option(o))
}

impl<'a> View for TxContext<'a> {
    type V = TxModel;

    open spec fn view(&self) -> TxModel {
        TxModel {
            txid: self.txid@,
            block_height: self.block_height,
            block_hash: self.block_hash@,
            sender: self.sender@,
            spent: outpoints_view(self.spent_outpoints@),
            vout_count: self.vout_count,
            op_return_vouts: self.op_return_vouts@,
            vout_addresses: optional_texts(self.vout_addresses@),
            vout_values: self.vout_values@,
        }
    }
}

// ---------------------------------------------------------------------------
// Snapshots and the state.
// ---------------------------------------------------------------------------

/// A copy of the derived state.
pub struct StateSnapshot {
    pub version: u32,
    pub indexed_height: u32,
    pub utxo_balances: StrMap<UtxoEntry>,
    pub address_utxos: StrMap<StrSet>,
    pub bets: VecDeque<BetView>,
    pub transfers: VecDeque<TransferView>,
    pub deploys: VecDeque<DeployView>,
    pub by_txid: StrMap<EntryRef>,
    pub tokens: StrMap<TokenRegistryEntry>,
    pub block_hashes: HashMap<u32, String>,
    pub bet_offset: u64,
    pub transfer_offset: u64,
    pub deploy_offset: u64,
}

/// What a snapshot holds.
#[verifier::ext_equal]
pub ghost struct SnapshotModel {
    pub version: u32,
    pub ledger: LedgerModel,
}

impl View for StateSnapshot {
    type V = SnapshotModel;

    open spec fn view(&self) -> SnapshotModel {
        SnapshotModel {
            version: self.version,
            ledger: LedgerModel {
                height: self.indexed_height,
                utxos: self.utxo_balances@,
                addrs: self.address_utxos@,
                bets: views(self.bets@),
                transfers: views(self.transfers@),
                deploys: views(self.deploys@),
                bet_offset: self.bet_offset,
                transfer_offset: self.transfer_offset,
                deploy_offset: self.deploy_offset,
                by_txid: self.by_txid@,
                tokens: self.tokens@,
                block_hashes: hashes_of(self.block_hashes@),
            },
        }
    }
}

impl Clone for StateSnapshot {
    fn clone(&self) -> (r: StateSnapshot)
        ensures
            r@ == self@,
    {
        StateSnapshot {
            version: self.version,
            indexed_height: self.indexed_height,
            utxo_balances: self.utxo_balances.duplicate(),
            address_utxos: self.address_utxos.duplicate(),
            bets: copy_queue(&self.bets),
            transfers: copy_queue(&self.transfers),
            deploys: copy_queue(&self.deploys),
            by_txid: self.by_txid.duplicate(),
            tokens: self.tokens.duplicate(),
            block_hashes: self.block_hashes.clone(),
            bet_offset: self.bet_offset,
            transfer_offset: self.transfer_offset,
            deploy_offset: self.deploy_offset,
        }
    }
}

impl Duplicate for StateSnapshot {
    fn duplicate(&self) -> (r: StateSnapshot) {
        self.clone()
    }
}

/// The indexer's state.
pub struct IndexerState {
    pub network: Network,
    pub esplora_base: String,
    pub indexed_height: u32,
    pub tip_height: u32,
    /// Token-carrying outputs by outpoint.
    pub utxo_balances: StrMap<UtxoEntry>,
    /// Outpoints by address.
    pub address_utxos: StrMap<StrSet>,
    pub bets: VecDeque<BetView>,
    pub transfers: VecDeque<TransferView>,
    pub deploys: VecDeque<DeployView>,
    pub bet_offset: u64,
    pub transfer_offset: u64,
    pub deploy_offset: u64,
    pub by_txid: StrMap<EntryRef>,
    pub tokens: StrMap<TokenRegistryEntry>,
    pub block_hashes: HashMap<u32, String>,
    /// The last snapshots, oldest first.
    pub snapshots: VecDeque<StateSnapshot>,
    /// Unix seconds at which `indexed_height` last advanced.
    pub last_progress_at: u64,
    /// The last diagnostic events, oldest first.
    pub recent_errors: VecDeque<ErrorEvent>,
}

/// What the state holds.
#[verifier::ext_equal]
pub ghost struct StateModel {
    pub network: Network,
    pub esplora_base: Text,
    pub tip_height: u32,
    pub ledger: LedgerModel,
    pub snapshots: Seq<SnapshotModel>,
    pub last_progress_at: u64,
    pub recent_errors: Seq<ErrorModel>,
}

impl View for IndexerState {
    type V = StateModel;

    open spec fn view(&self) -> StateModel {
        StateModel {
            network: self.network,
            esplora_base: self.esplora_base@,
            tip_height: self.tip_height,
            ledger: LedgerModel {
                height: self.indexed_height,
                utxos: self.utxo_balances@,
                addrs: self.address_utxos@,
                bets: views(self.bets@),
                transfers: views(self.transfers@),
                deploys: views(self.deploys@),
                bet_offset: self.bet_offset,
                transfer_offset: self.transfer_offset,
                deploy_offset: self.deploy_offset,
                by_txid: self.by_txid@,
                tokens: self.tokens@,
                block_hashes: hashes_of(self.block_hashes@),
            },
            snapshots: views(self.snapshots@),
            last_progress_at: self.last_progress_at,
            recent_errors: views(self.recent_errors@),
        }
    }
}

/// A sequence with `x` at its end and at most `cap` elements: one more than `cap` drops
/// the first.
pub open spec fn ring_push<T>(s: Seq<T>, cap: nat, x: T) -> Seq<T> {
    if s.len() >= cap && s.len() > 0 {
        s.skip(1).push(x)
    } else {
        s.push(x)
    }
}

/// A wager of an old snapshot is settled by the hash of its own block, without a reward.
pub open spec fn resettled(b: BetModel) -> BetModel {
    if b.status == BetStatus::LegacyPending {
        BetModel {
            status: BetStatus::Settled,
            win: Some(hit(b.tier, b.pick, b.block_hash) == Some(true)),
            reward_smallest: 0,
            reveal_block_height: None,
            reveal_block_hash: None,
            ..b
        }
    } else {
        b
    }
}

/// The ledger with the wagers of old snapshots settled.
pub open spec fn settled_ledger(l: LedgerModel) -> LedgerModel {
    LedgerModel { bets: l.bets.map_values(|b: BetModel| resettled(b)), ..l }
}

/// A snapshot can be gone back to: it is no later than `cutoff`, and the hash that it has
/// for its own height is the canonical one.
pub open spec fn restorable(s: SnapshotModel, cutoff: u32, canonical: Map<u32, Text>) -> bool {
    let h = s.ledger.height;
    h <= cutoff && s.ledger.block_hashes.contains_key(h) && canonical.contains_key(h)
        && s.ledger.block_hashes[h] == canonical[h]
}

/// The position of the last snapshot that can be gone back to.
pub open spec fn last_restorable(
    snaps: Seq<SnapshotModel>,
    cutoff: u32,
    canonical: Map<u32, Text>,
) -> Option<int>
    decreases snaps.len(),
{
    if snaps.len() == 0 {
        None
    } else if restorable(snaps.last(), cutoff, canonical) {
        Some(snaps.len() - 1)
    } else {
        last_restorable(snaps.drop_last(), cutoff, canonical)
    }
}

/// What an address's outpoints hold of a ticker.
pub open spec fn held(utxos: Map<Text, UtxoModel>, keys: Set<Text>, ticker: Text) -> nat {
    sum_over(
        keys.intersect(utxos.dom()),
        |k: Text| amount_in(utxos[k].balances, ticker) as nat,
    )
}

/// What all outputs hold of a ticker.
pub open spec fn total_of(utxos: Map<Text, UtxoModel>, ticker: Text) -> nat {
    sum_over(utxos.dom(), |k: Text| amount_in(utxos[k].balances, ticker) as nat)
}

/// Some of these outpoints has an entry for the ticker.
pub open spec fn carries(utxos: Map<Text, UtxoModel>, keys: Set<Text>, ticker: Text) -> bool {
    exists|k: Text| #[trigger]
        keys.contains(k) && utxos.contains_key(k) && utxos[k].balances.contains_key(ticker)
}

/// The balances of an address, ticker by ticker.
pub open spec fn balances_of(utxos: Map<Text, UtxoModel>, keys: Set<Text>) -> Balances {
    Map::new(|t: Text| carries(utxos, keys, t), |t: Text| sat(held(utxos, keys, t)))
}

/// One more outpoint adds its balances.
proof fn lemma_balances_of_insert(utxos: Map<Text, UtxoModel>, keys: Set<Text>, k: Text)
    requires
        keys.finite(),
        !keys.contains(k),
    ensures
        balances_of(utxos, keys.insert(k)) == (if utxos.contains_key(k) {
            merged(balances_of(utxos, keys), utxos[k].balances)
        } else {
            balances_of(utxos, keys)
        }),
{
    let more = keys.insert(k);
    let left = balances_of(utxos, more);
    let base = balances_of(utxos, keys);
    assert forall|t: Text| carries(utxos, more, t) <==> carries(utxos, keys, t) || (
    utxos.contains_key(k) && utxos[k].balances.contains_key(t)) by {
        if carries(utxos, keys, t) {
            let w = choose|w: Text| #[trigger]
                keys.contains(w) && utxos.contains_key(w) && utxos[w].balances.contains_key(t);
            assert(more.contains(w));
        }
        if utxos.contains_key(k) && utxos[k].balances.contains_key(t) {
            assert(more.contains(k));
        }
        if carries(utxos, more, t) {
            let w = choose|w: Text| #[trigger]
                more.contains(w) && utxos.contains_key(w) && utxos[w].balances.contains_key(t);
            if w != k {
                assert(keys.contains(w));
            }
        }
    }
    assert forall|t: Text| held(utxos, more, t) == held(utxos, keys, t) + (if utxos.contains_key(k) {
        amount_in(utxos[k].balances, t) as nat
    } else {
        0
    }) by {
        let f = |w: Text| amount_in(utxos[w].balances, t) as nat;
        if utxos.contains_key(k) {
            assert(more.intersect(utxos.dom()) =~= keys.intersect(utxos.dom()).insert(k));
            lemma_sum_insert(keys.intersect(utxos.dom()), f, k);
        } else {
            assert(more.intersect(utxos.dom()) =~= keys.intersect(utxos.dom()));
        }
    }
    assert forall|t: Text| !carries(utxos, keys, t) implies held(utxos, keys, t) == 0 by {
        let f = |w: Text| amount_in(utxos[w].balances, t) as nat;
        let s = keys.intersect(utxos.dom());
        crate::sums::lemma_sum_positive(s, f);
        if held(utxos, keys, t) > 0 {
            let w = choose|w: Text| s.contains(w) && #[trigger] f(w) > 0;
            assert(keys.contains(w));
        }
    }
    if utxos.contains_key(k) {
        assert(left =~= merged(base, utxos[k].balances));
    } else {
        assert(left =~= base);
    }
}

/// Adds the balances in `more` to those in `into`.
pub fn merge_into(into: &mut RuneBalance, more: &RuneBalance)
    ensures
        final(into)@ == merged(old(into)@, more@),
{
    let ghost start = into@;
    let n: usize = more.len();
    let mut i: usize = 0;
    while i < n
        invariant
            n == more.keys().len(),
            i <= n,
            lists_keys(more.keys(), more@),
            forall|t: Text| #[trigger] into@.contains_key(t) <==> start.contains_key(t)
                || more.keys().take(i as int).contains(t),
            forall|t: Text| #[trigger] into@.contains_key(t) ==> into@[t] == (
            if more.keys().take(i as int).contains(t) {
                sat((amount_in(start, t) + more@[t]) as nat)
            } else {
                start[t]
            }),
        decreases n - i,
    {
        let ticker = more.key_at(i).clone();
        let amount: u64 = *more.value_at(i);
        let ghost before = more.keys().take(i as int);
        let ghost after = more.keys().take(i + 1);
        let ghost key = more.keys()[i as int];
        let ghost prev = into@;
        proof {
            assert(after =~= before.push(key));
            assert(!before.contains(key)) by {
                if before.contains(key) {
                    let j = choose|j: int| 0 <= j < before.len() && before[j] == key;
                    assert(more.keys()[j] == more.keys()[i as int]);
                }
            }
        }
        let cur: u64 = match into.get(&ticker) {
            Some(c) => *c,
            None => 0,
        };
        into.insert(ticker, cur.saturating_add(amount));
        proof {
            assert forall|t: Text| after.contains(t) <==> before.contains(t) || t == key by {
                if before.contains(t) {
                    let j = choose|j: int| 0 <= j < before.len() && before[j] == t;
                    assert(after[j] == t);
                }
                if t == key {
                    assert(after[i as int] == t);
                }
                if after.contains(t) && t != key {
                    let j = choose|j: int| 0 <= j < after.len() && after[j] == t;
                    assert(before[j] == t);
                }
            }
        }
        i += 1;
    }
    proof {
        assert(more.keys().take(n as int) =~= more.keys());
        assert forall|t: Text| more.keys().contains(t) <==> more@.contains_key(t) by {
            if more.keys().contains(t) {
                let j = choose|j: int| 0 <= j < more.keys().len() && more.keys()[j] == t;
                assert(more@.contains_key(more.keys()[j]));
            }
        }
        assert(into@ =~= merged(start, more@));
    }
}

/// The log position that a logical index stands for.
pub open spec fn physical(logical: u64, offset: u64, len: nat) -> Option<int> {
    if offset <= logical < offset + len {
        Some(logical - offset)
    } else {
        None
    }
}

impl IndexerState {
    /// The state before any block.
    pub fn new(network: Network, esplora_base: String) -> (r: Self)
        ensures
            r@.network == network,
            r@.esplora_base == esplora_base@,
            r@.tip_height == 0,
            r@.ledger == empty_ledger(),
            r@.snapshots == Seq::<SnapshotModel>::empty(),
            r@.recent_errors == Seq::<ErrorModel>::empty(),
    {
        let r = IndexerState {
            network,
            esplora_base,
            indexed_height: 0,
            tip_height: 0,
            utxo_balances: StrMap::new(),
            address_utxos: StrMap::new(),
            bets: VecDeque::new(),
            transfers: VecDeque::new(),
            deploys: VecDeque::new(),
            bet_offset: 0,
            transfer_offset: 0,
            deploy_offset: 0,
            by_txid: StrMap::new(),
            tokens: StrMap::new(),
            block_hashes: no_hashes(),
            snapshots: VecDeque::new(),
            last_progress_at: now_unix(),
            recent_errors: VecDeque::new(),
        };
        assert(r@.ledger =~= empty_ledger());
        assert(r@.snapshots =~= Seq::empty());
        assert(r@.recent_errors =~= Seq::empty());
        r
    }

    /// Notes that the indexed height advanced at `now`.
    pub fn touch_progress_at(&mut self, now: u64)
        ensures
            final(self)@ == (StateModel { last_progress_at: now, ..old(self)@ }),
    {
        self.last_progress_at = now;
    }

    /// Notes that the indexed height advanced just now.
    pub fn touch_progress(&mut self)
        ensures
            final(self)@ == (StateModel {
                last_progress_at: final(self)@.last_progress_at,
                ..old(self)@
            }),
    {
        self.touch_progress_at(now_unix());
    }

    /// Adds a diagnostic event and drops the oldest one beyond `MAX_RECENT_ERRORS`. Its
    /// detail must be free of secrets: a URL goes through `mask_secrets` first.
    pub fn push_error(&mut self, ev: ErrorEvent)
        ensures
            final(self)@ == (StateModel {
                recent_errors: ring_push(
                    old(self)@.recent_errors,
                    MAX_RECENT_ERRORS as nat,
                    ev@,
                ),
                ..old(self)@
            }),
    {
        let ghost events = self.recent_errors@;
        if self.recent_errors.len() >= MAX_RECENT_ERRORS {
            self.recent_errors.pop_front();
            proof {
                lemma_views_subrange(events, 1, events.len() as int);
            }
        }
        proof {
            lemma_views_push(self.recent_errors@, ev);
        }
        self.recent_errors.push_back(ev);
        assert(self@.recent_errors =~= ring_push(views(events), MAX_RECENT_ERRORS as nat, ev@));
    }

    /// Forgets everything derived, leaving one snapshot: the empty state at height zero.
    pub fn wipe_for_reorg(&mut self)
        ensures
            final(self)@ == (StateModel {
                ledger: empty_ledger(),
                snapshots: seq![SnapshotModel { version: SNAPSHOT_VERSION, ledger: empty_ledger() }],
                ..old(self)@
            }),
    {
        self.indexed_height = 0;
        self.utxo_balances.clear();
        self.address_utxos.clear();
        self.bets.clear();
        self.transfers.clear();
        self.deploys.clear();
        self.bet_offset = 0;
        self.transfer_offset = 0;
        self.deploy_offset = 0;
        self.by_txid.clear();
        self.tokens.clear();
        self.block_hashes = no_hashes();
        self.snapshots.clear();
        assert(self@.ledger =~= empty_ledger());
        let baseline = self.snapshot();
        self.snapshots.push_back(baseline);
        assert(self@.snapshots =~= seq![
            SnapshotModel { version: SNAPSHOT_VERSION, ledger: empty_ledger() },
        ]);
    }

    /// Drops the recorded block hashes below `oldest_keep`.
    pub fn prune_block_hashes(&mut self, oldest_keep: u32)
        ensures
            final(self)@ == (StateModel {
                ledger: LedgerModel {
                    block_hashes: old(self)@.ledger.block_hashes.restrict(
                        Set::new(|h: u32| oldest_keep <= h),
                    ),
                    ..old(self)@.ledger
                },
                ..old(self)@
            }),
    {
        keep_from(&mut self.block_hashes, oldest_keep);
    }

    /// A copy of the derived state.
    fn snapshot(&self) -> (r: StateSnapshot)
        ensures
            r@ == (SnapshotModel { version: SNAPSHOT_VERSION, ledger: self@.ledger }),
    {
        StateSnapshot {
            version: SNAPSHOT_VERSION,
            indexed_height: self.indexed_height,
            utxo_balances: self.utxo_balances.duplicate(),
            address_utxos: self.address_utxos.duplicate(),
            bets: copy_queue(&self.bets),
            transfers: copy_queue(&self.transfers),
            deploys: copy_queue(&self.deploys),
            by_txid: self.by_txid.duplicate(),
            tokens: self.tokens.duplicate(),
            block_hashes: self.block_hashes.clone(),
            bet_offset: self.bet_offset,
            transfer_offset: self.transfer_offset,
            deploy_offset: self.deploy_offset,
        }
    }

    /// Copies the derived state into the ring of snapshots and hands out a second copy.
    pub fn take_snapshot(&mut self) -> (r: StateSnapshot)
        ensures
            r@ == (SnapshotModel { version: SNAPSHOT_VERSION, ledger: old(self)@.ledger }),
            final(self)@ == (StateModel {
                snapshots: ring_push(old(self)@.snapshots, SNAPSHOT_RING_SIZE as nat, r@),
                ..old(self)@
            }),
    {
        let snap = self.snapshot();
        let kept = snap.duplicate();
        let ghost ring = self.snapshots@;
        if self.snapshots.len() >= SNAPSHOT_RING_SIZE {
            self.snapshots.pop_front();
            proof {
                lemma_views_subrange(ring, 1, ring.len() as int);
            }
        }
        proof {
            lemma_views_push(self.snapshots@, kept);
        }
        self.snapshots.push_back(kept);
        assert(self@.snapshots =~= ring_push(views(ring), SNAPSHOT_RING_SIZE as nat, snap@));
        snap
    }

    /// Goes back to a snapshot. The ring, the tip and the diagnostics stay.
    pub fn restore_from_snapshot(&mut self, snap: StateSnapshot)
        ensures
            final(self)@ == (StateModel { ledger: snap@.ledger, ..old(self)@ }),
    {
        self.indexed_height = snap.indexed_height;
        self.utxo_balances = snap.utxo_balances;
        self.address_utxos = snap.address_utxos;
        self.bets = snap.bets;
        self.transfers = snap.transfers;
        self.deploys = snap.deploys;
        self.by_txid = snap.by_txid;
        self.tokens = snap.tokens;
        self.block_hashes = snap.block_hashes;
        self.bet_offset = snap.bet_offset;
        self.transfer_offset = snap.transfer_offset;
        self.deploy_offset = snap.deploy_offset;
    }

    /// Goes back to the last snapshot that is no later than `cutoff` and whose hash for
    /// its own height is the canonical one. That snapshot and those after it leave the
    /// ring. Returns the height gone back to.
    pub fn restore_to_snapshot_at_or_before(
        &mut self,
        cutoff: u32,
        still_valid_hashes: &HashMap<u32, String>,
    ) -> (r: Option<u32>)
        ensures
            match last_restorable(old(self)@.snapshots, cutoff, hashes_of(still_valid_hashes@)) {
                Some(i) => {
                    let snap = old(self)@.snapshots[i];
                    &&& r == Some(snap.ledger.height)
                    &&& final(self)@ == (StateModel {
                        ledger: snap.ledger,
                        snapshots: old(self)@.snapshots.take(i),
                        ..old(self)@
                    })
                },
                None => r is None && final(self)@ == old(self)@,
            },
    {
        let ghost snaps = self@.snapshots;
        let ghost ring = self.snapshots@;
        let mut n: usize = self.snapshots.len();
        assert(snaps.take(n as int) =~= snaps);
        while n > 0
            invariant
                n <= ring.len(),
                ring == self.snapshots@,
                snaps == views(ring),
                last_restorable(snaps.take(n as int), cutoff, hashes_of(still_valid_hashes@))
                    == last_restorable(snaps, cutoff, hashes_of(still_valid_hashes@)),
                self@ == old(self)@,
                snaps == old(self)@.snapshots,
            decreases n,
        {
            let i: usize = n - 1;
            proof {
                assert(snaps.take(n as int).drop_last() =~= snaps.take(i as int));
                assert(snaps.take(n as int).last() == ring[i as int]@);
            }
            if self.is_restorable(i, cutoff, still_valid_hashes) {
                while self.snapshots.len() > i + 1
                    invariant
                        i < ring.len(),
                        i + 1 <= self.snapshots@.len() <= ring.len(),
                        self.snapshots@ == ring.take(self.snapshots@.len() as int),
                        snaps == views(ring),
                        snaps == old(self)@.snapshots,
                        self@ == (StateModel {
                            snapshots: views(self.snapshots@),
                            ..old(self)@
                        }),
                        i + 1 <= usize::MAX,
                    decreases self.snapshots@.len(),
                {
                    self.snapshots.pop_back();
                    assert(self.snapshots@ =~= ring.take(self.snapshots@.len() as int));
                }
                match self.snapshots.pop_back() {
                    Some(snap) => {
                        let height: u32 = snap.indexed_height;
                        proof {
                            assert(snap == ring[i as int]);
                            assert(self.snapshots@ =~= ring.take(i as int));
                            assert(views(ring.take(i as int)) =~= snaps.take(i as int));
                        }
                        self.restore_from_snapshot(snap);
                        return Some(height);
                    },
                    None => {
                        return None;
                    },
                }
            }
            n = i;
        }
        assert(snaps.take(0) =~= Seq::empty());
        None
    }

    fn is_restorable(&self, i: usize, cutoff: u32, canonical: &HashMap<u32, String>) -> (r: bool)
        requires
            i < self.snapshots@.len(),
        ensures
            r == restorable(self.snapshots@[i as int]@, cutoff, hashes_of(canonical@)),
    {
        let snap = &self.snapshots[i];
        if snap.indexed_height > cutoff {
            return false;
        }
        match hash_at(&snap.block_hashes, snap.indexed_height) {
            Some(stored) => match hash_at(canonical, snap.indexed_height) {
                Some(c) => same_text(stored, c),
                None => false,
            },
            None => false,
        }
    }

    /// The tokens that an output carries, where it carries any.
    pub fn utxo_balance(&self, txid: &str, vout: u32) -> (r: Option<&UtxoEntry>)
        ensures
            match r {
                Some(e) => {
                    &&& self@.ledger.utxos.contains_key(outpoint(txid@, vout))
                    &&& e@ == self@.ledger.utxos[outpoint(txid@, vout)]
                },
                None => !self@.ledger.utxos.contains_key(outpoint(txid@, vout)),
            },
    {
        self.utxo_balances.get(&outpoint_key(txid, vout))
    }

    /// What all outputs hold of a ticker, or the largest `u64` where that is more.
    pub fn total_minted_in_utxos(&self, ticker: &str) -> (r: u64)
        ensures
            r == sat(total_of(self@.ledger.utxos, ticker@)),
    {
        let ghost utxos = self@.ledger.utxos;
        let ghost f = |k: Text| amount_in(utxos[k].balances, ticker@) as nat;
        let n: usize = self.utxo_balances.len();
        let ghost keys = self.utxo_balances.keys();
        let mut total: u64 = 0;
        let mut i: usize = 0;
        proof {
            assert(keys.take(0).to_set() =~= Set::empty());
        }
        while i < n
            invariant
                i <= n,
                n == keys.len(),
                keys == self.utxo_balances.keys(),
                utxos == self.utxo_balances@,
                lists_keys(keys, utxos),
                f == (|k: Text| amount_in(utxos[k].balances, ticker@) as nat),
                total == sat(sum_over(keys.take(i as int).to_set(), f)),
            decreases n - i,
        {
            let amount: u64 = match self.utxo_balances.value_at(i).balances.get(ticker) {
                Some(a) => *a,
                None => 0,
            };
            proof {
                lemma_take_step(keys, i as int);
                lemma_sum_insert(keys.take(i as int).to_set(), f, keys[i as int]);
                assert(f(keys[i as int]) == amount);
            }
            total = total.saturating_add(amount);
            i += 1;
        }
        proof {
            assert(keys.take(n as int) =~= keys);
            crate::strmap::lemma_lists_keys(keys, utxos);
        }
        total
    }

    /// What an address holds, ticker by ticker.
    pub fn address_balances(&self, address: &str) -> (r: RuneBalance)
        ensures
            r@ == balances_of(
                self@.ledger.utxos,
                outpoints_of(self@.ledger.addrs, address@),
            ),
    {
        let ghost utxos = self@.ledger.utxos;
        let mut totals: RuneBalance = StrMap::new();
        proof {
            lemma_balances_of_none(utxos);
        }
        if let Some(set) = self.address_utxos.get(address) {
            let n: usize = set.len();
            let ghost list = set.list();
            let mut i: usize = 0;
            proof {
                assert(list.take(0).to_set() =~= Set::empty());
            }
            while i < n
                invariant
                    i <= n,
                    n == list.len(),
                    list == set.list(),
                    lists_set(list, set@),
                    utxos == self.utxo_balances@,
                    totals@ == balances_of(utxos, list.take(i as int).to_set()),
                decreases n - i,
            {
                let key = set.member_at(i);
                proof {
                    lemma_take_step(list, i as int);
                    lemma_balances_of_insert(utxos, list.take(i as int).to_set(), key@);
                }
                if let Some(entry) = self.utxo_balances.get(key) {
                    merge_into(&mut totals, &entry.balances);
                }
                i += 1;
            }
            proof {
                assert(list.take(n as int) =~= list);
                assert(list.to_set() =~= set@);
            }
        }
        totals
    }

    /// The wager at a logical index, unless it is not there yet or no longer there.
    pub fn resolve_bet_idx(&self, logical_idx: u64) -> (r: Option<&BetView>)
        ensures
            match physical(logical_idx, self.bet_offset, self@.ledger.bets.len()) {
                Some(i) => r matches Some(b) && b@ == self@.ledger.bets[i],
                None => r is None,
            },
    {
        if logical_idx < self.bet_offset {
            return None;
        }
        let i: u64 = logical_idx - self.bet_offset;
        if i < self.bets.len() as u64 {
            Some(&self.bets[i as usize])
        } else {
            None
        }
    }

    /// The transfer at a logical index.
    pub fn resolve_transfer_idx(&self, logical_idx: u64) -> (r: Option<&TransferView>)
        ensures
            match physical(logical_idx, self.transfer_offset, self@.ledger.transfers.len()) {
                Some(i) => r matches Some(t) && t@ == self@.ledger.transfers[i],
                None => r is None,
            },
    {
        if logical_idx < self.transfer_offset {
            return None;
        }
        let i: u64 = logical_idx - self.transfer_offset;
        if i < self.transfers.len() as u64 {
            Some(&self.transfers[i as usize])
        } else {
            None
        }
    }

    /// The deployment at a logical index.
    pub fn resolve_deploy_idx(&self, logical_idx: u64) -> (r: Option<&DeployView>)
        ensures
            match physical(logical_idx, self.deploy_offset, self@.ledger.deploys.len()) {
                Some(i) => r matches Some(d) && d@ == self@.ledger.deploys[i],
                None => r is None,
            },
    {
        if logical_idx < self.deploy_offset {
            return None;
        }
        let i: u64 = logical_idx - self.deploy_offset;
        if i < self.deploys.len() as u64 {
            Some(&self.deploys[i as usize])
        } else {
            None
        }
    }

    /// Settles the wagers that an old snapshot left pending, each by the hash of its own
    /// block. The block at hand plays no part.
    pub fn advance_settlement(&mut self, _this_height: u32, _this_hash: &str)
        ensures
            final(self)@ == (StateModel { ledger: settled_ledger(old(self)@.ledger), ..old(self)@ }),
    {
        let ghost start = self@;
        let ghost log = self.bets@;
        let mut rest: VecDeque<BetView> = VecDeque::new();
        std::mem::swap(&mut self.bets, &mut rest);
        let n: usize = rest.len();
        let mut i: usize = 0;
        assert(log.skip(0) =~= log);
        assert(views(self.bets@) =~= settled_ledger(start.ledger).bets.take(0));
        while i < n
            invariant
                i <= n,
                n == log.len(),
                start.ledger.bets == views(log),
                rest@ == log.skip(i as int),
                views(self.bets@) == settled_ledger(start.ledger).bets.take(i as int),
                self@ == (StateModel {
                    ledger: LedgerModel { bets: views(self.bets@), ..start.ledger },
                    ..start
                }),
            decreases n - i,
        {
            let ghost done = self.bets@;
            if let Some(mut bet) = rest.pop_front() {
                let ghost was = bet@;
                assert(was == start.ledger.bets[i as int]);
                if bet.status == BetStatus::LegacyPending {
                    let win = match is_hit(&bet.tier, &bet.pick, &bet.block_hash) {
                        Some(b) => b,
                        None => false,
                    };
                    bet.status = BetStatus::Settled;
                    bet.win = Some(win);
                    bet.reward_smallest = 0;
                    bet.reveal_block_height = None;
                    bet.reveal_block_hash = None;
                }
                proof {
                    assert(bet@ == resettled(was));
                    lemma_views_push(done, bet);
                    assert(rest@ =~= log.skip(i + 1));
                    assert(settled_ledger(start.ledger).bets.take(i as int).push(bet@)
                        =~= settled_ledger(start.ledger).bets.take(i + 1));
                }
                self.bets.push_back(bet);
            }
            i += 1;
        }
        assert(settled_ledger(start.ledger).bets.take(n as int) =~= settled_ledger(
            start.ledger,
        ).bets);
    }
}

/// One more element of a list without repetition is one more member.
pub(crate) proof fn lemma_take_step(list: Seq<Text>, i: int)
    requires
        0 <= i < list.len(),
        list.no_duplicates(),
    ensures
        list.take(i + 1).to_set() == list.take(i).to_set().insert(list[i]),
        !list.take(i).to_set().contains(list[i]),
        list.take(i).to_set().finite(),
{
    let before = list.take(i);
    let after = list.take(i + 1);
    vstd::seq_lib::seq_to_set_is_finite(before);
    assert forall|t: Text| after.contains(t) <==> before.contains(t) || t == list[i] by {
        if before.contains(t) {
            let j = choose|j: int| 0 <= j < before.len() && before[j] == t;
            assert(after[j] == t);
        }
        if t == list[i] {
            assert(after[i] == t);
        }
        if after.contains(t) && t != list[i] {
            let j = choose|j: int| 0 <= j < after.len() && after[j] == t;
            assert(before[j] == t);
        }
    }
    assert(after.to_set() =~= before.to_set().insert(list[i]));
    if before.contains(list[i]) {
        let j = choose|j: int| 0 <= j < before.len() && before[j] == list[i];
        assert(list[j] == list[i]);
    }
}

/// No outpoints hold nothing.
proof fn lemma_balances_of_none(utxos: Map<Text, UtxoModel>)
    ensures
        balances_of(utxos, Set::empty()) == Map::<Text, u64>::empty(),
{
    assert(balances_of(utxos, Set::empty()) =~= Map::<Text, u64>::empty());
}

} // verus!
