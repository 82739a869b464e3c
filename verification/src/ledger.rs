//! The token ledger as a mathematical object, and what one transaction does to it.
//!
//! Everything here is specification. The ledger maps each unspent output that carries
//! tokens to its balances. A transaction drains the outputs that it spends into a pool,
//! its payload may mint or move tokens, and what is left of the pool goes to the change
//! output that the payload names, or is destroyed.
use vstd::prelude::*;

use crate::indexer::{BetStatus, EntryRef};
use crate::indexer::{MAX_BETS_VEC, MAX_DEPLOYS_VEC, MAX_TRANSFERS_VEC};
use crate::protocol::{
    DEPLOY_PROTOCOL_FEE_SATS, LCKPROTOCOL_V1_HEIGHT, MINE_PROTOCOL_FEE_SATS, PROJECT_FEE_ADDRESS,
    REQUIRED_TOKEN_SUPPLY, SEND_PROTOCOL_FEE_SATS,
};

verus! {

use crate::protocol::{hit, reward_of, PayloadModel};
use crate::text::{decimal, lower};

/// A text as its characters.
pub type Text = Seq<char>;

/// Amounts by ticker.
pub type Balances = Map<Seq<char>, u64>;

/// An output that carries tokens.
#[verifier::ext_equal]
pub ghost struct UtxoModel {
    pub address: Option<Text>,
    pub balances: Balances,
}

/// A logged wager.
pub ghost struct BetModel {
    pub txid: Text,
    pub block_height: u32,
    pub block_hash: Text,
    pub sender: Text,
    pub tier: Text,
    pub pick: Text,
    pub ticker: Text,
    pub win_out_idx: u32,
    pub change_out_idx: Option<u32>,
    pub status: BetStatus,
    pub reveal_block_height: Option<u32>,
    pub reveal_block_hash: Option<Text>,
    pub win: Option<bool>,
    pub reward_smallest: u64,
    pub cap_exhausted: bool,
}

/// A logged transfer.
pub ghost struct TransferModel {
    pub txid: Text,
    pub block_height: u32,
    pub block_hash: Text,
    pub sender: Text,
    pub ticker: Text,
    pub amount: u64,
    pub to_out_idx: u32,
    pub change_out_idx: Option<u32>,
    pub applied: bool,
}

/// A logged deployment.
pub ghost struct DeployModel {
    pub txid: Text,
    pub block_height: u32,
    pub block_hash: Text,
    pub deployer: Text,
    pub ticker: Text,
    pub supply: u64,
    pub applied: bool,
}

/// A registered token.
pub ghost struct TokenModel {
    pub ticker: Text,
    pub supply: u64,
    pub minted: u64,
    pub deployer: Text,
    pub deploy_txid: Text,
    pub deploy_block: u32,
}

/// The derived state.
#[verifier::ext_equal]
pub ghost struct LedgerModel {
    /// Height of the last block taken in.
    pub height: u32,
    /// Token-carrying outputs by outpoint.
    pub utxos: Map<Text, UtxoModel>,
    /// Outpoints by address.
    pub addrs: Map<Text, Set<Text>>,
    pub bets: Seq<BetModel>,
    pub transfers: Seq<TransferModel>,
    pub deploys: Seq<DeployModel>,
    /// How many entries of each log have been evicted.
    pub bet_offset: u64,
    pub transfer_offset: u64,
    pub deploy_offset: u64,
    /// Where a transaction is logged.
    pub by_txid: Map<Text, EntryRef>,
    pub tokens: Map<Text, TokenModel>,
    pub block_hashes: Map<u32, Text>,
}

/// The ledger before any block.
pub open spec fn empty_ledger() -> LedgerModel {
    LedgerModel {
        height: 0,
        utxos: Map::empty(),
        addrs: Map::empty(),
        bets: Seq::empty(),
        transfers: Seq::empty(),
        deploys: Seq::empty(),
        bet_offset: 0,
        transfer_offset: 0,
        deploy_offset: 0,
        by_txid: Map::empty(),
        tokens: Map::empty(),
        block_hashes: Map::empty(),
    }
}

/// What the ledger reads of a transaction.
pub ghost struct TxModel {
    pub txid: Text,
    pub block_height: u32,
    pub block_hash: Text,
    pub sender: Text,
    pub spent: Seq<(Text, u32)>,
    pub vout_count: u32,
    pub op_return_vouts: Seq<u32>,
    pub vout_addresses: Seq<Option<Text>>,
    pub vout_values: Seq<u64>,
}

// ---------------------------------------------------------------------------
// Arithmetic on amounts.
// ---------------------------------------------------------------------------

/// `n`, or the largest `u64` where `n` is larger.
pub open spec fn sat(n: nat) -> u64 {
    if n > u64::MAX {
        u64::MAX
    } else {
        n as u64
    }
}

/// `a - b`, or zero.
pub open spec fn minus(a: u64, b: u64) -> u64 {
    if a < b {
        0
    } else {
        (a - b) as u64
    }
}

/// The smaller of two amounts.
pub open spec fn least(a: u64, b: u64) -> u64 {
    if a < b {
        a
    } else {
        b
    }
}

/// The amount of a ticker.
pub open spec fn amount_in(b: Balances, ticker: Text) -> u64 {
    if b.contains_key(ticker) {
        b[ticker]
    } else {
        0
    }
}

/// Two balances together.
pub open spec fn merged(a: Balances, b: Balances) -> Balances {
    Map::new(
        |t: Text| a.contains_key(t) || b.contains_key(t),
        |t: Text| sat((amount_in(a, t) + amount_in(b, t)) as nat),
    )
}

// ---------------------------------------------------------------------------
// Outputs.
// ---------------------------------------------------------------------------

/// The key of an output: the transaction id in lower case, a colon, the output's index.
pub open spec fn outpoint(txid: Text, vout: u32) -> Text {
    lower(txid).push(':') + decimal(vout as nat)
}

/// The output exists and can hold tokens.
pub open spec fn usable(tx: TxModel, idx: u32) -> bool {
    idx < tx.vout_count && !tx.op_return_vouts.contains(idx)
}

/// The change output, where one is named and usable.
pub open spec fn usable_change(tx: TxModel, change: Option<u32>) -> Option<u32> {
    match change {
        Some(c) => if usable(tx, c) {
            Some(c)
        } else {
            None
        },
        None => None,
    }
}

/// Some output pays exactly `sats` to the project.
pub open spec fn pays_fee(tx: TxModel, sats: u64) -> bool {
    exists|i: int|
        0 <= i < tx.vout_values.len() && i < tx.vout_addresses.len() && #[trigger] tx.vout_values[i]
            == sats && tx.vout_addresses[i] == Some(PROJECT_FEE_ADDRESS@)
}

/// The address of an output, where it has one.
pub open spec fn address_of(tx: TxModel, idx: u32) -> Option<Text> {
    if idx < tx.vout_addresses.len() {
        tx.vout_addresses[idx as int]
    } else {
        None
    }
}

// ---------------------------------------------------------------------------
// The index of outpoints by address.
// ---------------------------------------------------------------------------

/// The outpoints of an address.
pub open spec fn outpoints_of(addrs: Map<Text, Set<Text>>, address: Text) -> Set<Text> {
    if addrs.contains_key(address) {
        addrs[address]
    } else {
        Set::empty()
    }
}

/// `key` is entered under `address`.
pub open spec fn entered(addrs: Map<Text, Set<Text>>, address: Option<Text>, key: Text) -> Map<
    Text,
    Set<Text>,
> {
    match address {
        Some(a) => addrs.insert(a, outpoints_of(addrs, a).insert(key)),
        None => addrs,
    }
}

/// `key` is struck from under `address`, and the address with its last outpoint.
pub open spec fn struck(addrs: Map<Text, Set<Text>>, address: Option<Text>, key: Text) -> Map<
    Text,
    Set<Text>,
> {
    match address {
        Some(a) => if !addrs.contains_key(a) {
            addrs
        } else if addrs[a].remove(key) == Set::<Text>::empty() {
            addrs.remove(a)
        } else {
            addrs.insert(a, addrs[a].remove(key))
        },
        None => addrs,
    }
}

// ---------------------------------------------------------------------------
// Draining the inputs.
// ---------------------------------------------------------------------------

/// The ledger's outputs while inputs are drained, and the pool they are drained into.
#[verifier::ext_equal]
pub ghost struct Drained {
    pub utxos: Map<Text, UtxoModel>,
    pub addrs: Map<Text, Set<Text>>,
    pub pool: Balances,
}

/// One output is spent.
pub open spec fn drain_one(d: Drained, key: Text) -> Drained {
    if d.utxos.contains_key(key) {
        Drained {
            utxos: d.utxos.remove(key),
            addrs: struck(d.addrs, d.utxos[key].address, key),
            pool: merged(d.pool, d.utxos[key].balances),
        }
    } else {
        d
    }
}

/// The outputs are spent in order.
pub open spec fn drain(d: Drained, spent: Seq<(Text, u32)>) -> Drained
    decreases spent.len(),
{
    if spent.len() == 0 {
        d
    } else {
        drain_one(drain(d, spent.drop_last()), outpoint(spent.last().0, spent.last().1))
    }
}

/// What a transaction's inputs release.
pub open spec fn drained(l: LedgerModel, tx: TxModel) -> Drained {
    drain(Drained { utxos: l.utxos, addrs: l.addrs, pool: Map::empty() }, tx.spent)
}

/// The ledger without the spent outputs.
pub open spec fn spend(l: LedgerModel, tx: TxModel) -> LedgerModel {
    LedgerModel { utxos: drained(l, tx).utxos, addrs: drained(l, tx).addrs, ..l }
}

/// More than one ticker is in the pool.
pub open spec fn mixes(pool: Balances) -> bool {
    exists|a: Text, b: Text| #[trigger]
        pool.contains_key(a) && #[trigger] pool.contains_key(b) && a != b
}

/// The pool that the payload works on: nothing where tickers are mixed, for then all of
/// it is destroyed.
pub open spec fn usable_pool(pool: Balances) -> Balances {
    if mixes(pool) {
        Map::empty()
    } else {
        pool
    }
}

// ---------------------------------------------------------------------------
// The logs.
// ---------------------------------------------------------------------------

/// How many entries leave a log of `len` entries before one is added.
pub open spec fn evicted(len: nat, cap: nat) -> nat {
    if len >= cap {
        (len - cap + 1) as nat
    } else {
        0
    }
}

/// A log with `x` added, its oldest entries gone.
pub open spec fn logged<T>(log: Seq<T>, cap: nat, x: T) -> Seq<T> {
    log.skip(evicted(log.len(), cap) as int).push(x)
}

/// The logical index of the entry that `logged` adds.
pub open spec fn logged_idx(len: nat, cap: nat, offset: u64) -> u64 {
    sat((sat((offset + evicted(len, cap)) as nat) + (len - evicted(len, cap))) as nat)
}

/// The index by transaction without those of the evicted entries.
pub open spec fn forgotten(by_txid: Map<Text, EntryRef>, gone: Seq<Text>) -> Map<Text, EntryRef> {
    by_txid.remove_keys(gone.to_set())
}

/// The transaction ids of a log's first `n` entries.
pub open spec fn bet_txids(log: Seq<BetModel>, n: nat) -> Seq<Text> {
    log.take(n as int).map_values(|b: BetModel| b.txid)
}

/// The transaction ids of a log's first `n` entries.
pub open spec fn transfer_txids(log: Seq<TransferModel>, n: nat) -> Seq<Text> {
    log.take(n as int).map_values(|t: TransferModel| t.txid)
}

/// The transaction ids of a log's first `n` entries.
pub open spec fn deploy_txids(log: Seq<DeployModel>, n: nat) -> Seq<Text> {
    log.take(n as int).map_values(|d: DeployModel| d.txid)
}

/// A wager is logged.
pub open spec fn log_bet(l: LedgerModel, bet: BetModel) -> LedgerModel {
    let n = evicted(l.bets.len(), MAX_BETS_VEC as nat);
    LedgerModel {
        bets: logged(l.bets, MAX_BETS_VEC as nat, bet),
        bet_offset: sat((l.bet_offset + n) as nat),
        by_txid: forgotten(l.by_txid, bet_txids(l.bets, n)).insert(
            bet.txid,
            EntryRef::Bet { idx: logged_idx(l.bets.len(), MAX_BETS_VEC as nat, l.bet_offset) },
        ),
        ..l
    }
}

/// A transfer is logged.
pub open spec fn log_transfer(l: LedgerModel, t: TransferModel) -> LedgerModel {
    let n = evicted(l.transfers.len(), MAX_TRANSFERS_VEC as nat);
    LedgerModel {
        transfers: logged(l.transfers, MAX_TRANSFERS_VEC as nat, t),
        transfer_offset: sat((l.transfer_offset + n) as nat),
        by_txid: forgotten(l.by_txid, transfer_txids(l.transfers, n)).insert(
            t.txid,
            EntryRef::Transfer {
                idx: logged_idx(l.transfers.len(), MAX_TRANSFERS_VEC as nat, l.transfer_offset),
            },
        ),
        ..l
    }
}

/// A deployment is logged.
pub open spec fn log_deploy(l: LedgerModel, d: DeployModel) -> LedgerModel {
    let n = evicted(l.deploys.len(), MAX_DEPLOYS_VEC as nat);
    LedgerModel {
        deploys: logged(l.deploys, MAX_DEPLOYS_VEC as nat, d),
        deploy_offset: sat((l.deploy_offset + n) as nat),
        by_txid: forgotten(l.by_txid, deploy_txids(l.deploys, n)).insert(
            d.txid,
            EntryRef::Deploy {
                idx: logged_idx(l.deploys.len(), MAX_DEPLOYS_VEC as nat, l.deploy_offset),
            },
        ),
        ..l
    }
}

// ---------------------------------------------------------------------------
// The payload's edict.
// ---------------------------------------------------------------------------

/// What is still to be put on outputs: a credit that the payload makes, and the pool,
/// which goes to the change output or nowhere.
pub ghost struct Edict {
    pub ledger: LedgerModel,
    pub credit: Option<(u32, Balances)>,
    pub pool: Balances,
    pub change: Option<u32>,
}

/// How a wager comes out.
pub ghost struct BetOutcome {
    pub status: BetStatus,
    pub win: Option<bool>,
    pub reward: u64,
    pub cap_exhausted: bool,
}

/// A wager counts: its ticker is deployed, its winnings have an output to go to, its fee
/// is paid and its inputs hold at most one ticker.
pub open spec fn bet_counts(
    l: LedgerModel,
    tx: TxModel,
    mixed: bool,
    ticker: Text,
    win_out_idx: u32,
) -> bool {
    !mixed && l.tokens.contains_key(ticker) && usable(tx, win_out_idx) && pays_fee(
        tx,
        MINE_PROTOCOL_FEE_SATS,
    )
}

/// The reward of a hit: that of the tier, as far as the supply lasts.
pub open spec fn capped_reward(token: TokenModel, tier: Text) -> u64 {
    let raw = match reward_of(tier) {
        Some(r) => r,
        None => 0u64,
    };
    least(raw, minus(token.supply, token.minted))
}

/// How a wager comes out.
pub open spec fn bet_outcome(
    l: LedgerModel,
    tx: TxModel,
    mixed: bool,
    tier: Text,
    pick: Text,
    ticker: Text,
    win_out_idx: u32,
) -> BetOutcome {
    if !bet_counts(l, tx, mixed, ticker, win_out_idx) {
        BetOutcome { status: BetStatus::Invalid, win: None, reward: 0, cap_exhausted: false }
    } else if hit(tier, pick, tx.block_hash) != Some(true) {
        BetOutcome { status: BetStatus::Settled, win: Some(false), reward: 0, cap_exhausted: false }
    } else {
        let reward = capped_reward(l.tokens[ticker], tier);
        BetOutcome {
            status: BetStatus::Settled,
            win: Some(reward > 0),
            reward,
            cap_exhausted: reward == 0,
        }
    }
}

/// The registry with `reward` of `ticker` minted.
pub open spec fn minted_more(tokens: Map<Text, TokenModel>, ticker: Text, reward: u64) -> Map<
    Text,
    TokenModel,
> {
    if reward > 0 {
        tokens.insert(
            ticker,
            TokenModel {
                minted: sat((tokens[ticker].minted + reward) as nat),
                ..tokens[ticker]
            },
        )
    } else {
        tokens
    }
}

/// A wager's edict: a reward is minted to the winning output.
pub open spec fn bet_edict(
    l: LedgerModel,
    tx: TxModel,
    pool: Balances,
    mixed: bool,
    tier: Text,
    pick: Text,
    ticker: Text,
    win_out_idx: u32,
    change_out_idx: Option<u32>,
) -> Edict {
    let o = bet_outcome(l, tx, mixed, tier, pick, ticker, win_out_idx);
    let bet = BetModel {
        txid: tx.txid,
        block_height: tx.block_height,
        block_hash: tx.block_hash,
        sender: tx.sender,
        tier,
        pick,
        ticker,
        win_out_idx,
        change_out_idx,
        status: o.status,
        reveal_block_height: None,
        reveal_block_hash: None,
        win: o.win,
        reward_smallest: o.reward,
        cap_exhausted: o.cap_exhausted,
    };
    Edict {
        ledger: log_bet(
            LedgerModel { tokens: minted_more(l.tokens, ticker, o.reward), ..l },
            bet,
        ),
        credit: if o.reward > 0 {
            Some((win_out_idx, Map::empty().insert(ticker, o.reward)))
        } else {
            None
        },
        pool,
        change: usable_change(tx, change_out_idx),
    }
}

/// A transfer goes through: the output is usable, the pool suffices, the fee is paid and
/// the inputs hold at most one ticker.
pub open spec fn send_applies(
    tx: TxModel,
    pool: Balances,
    mixed: bool,
    ticker: Text,
    amount: u64,
    to_out_idx: u32,
) -> bool {
    !mixed && usable(tx, to_out_idx) && amount_in(pool, ticker) >= amount && pays_fee(
        tx,
        SEND_PROTOCOL_FEE_SATS,
    )
}

/// The pool without `amount` of `ticker`.
pub open spec fn taken(pool: Balances, ticker: Text, amount: u64) -> Balances {
    if !pool.contains_key(ticker) {
        pool
    } else if minus(pool[ticker], amount) == 0 {
        pool.remove(ticker)
    } else {
        pool.insert(ticker, minus(pool[ticker], amount))
    }
}

/// A transfer's edict: the amount moves from the pool to the recipient output.
pub open spec fn send_edict(
    l: LedgerModel,
    tx: TxModel,
    pool: Balances,
    mixed: bool,
    ticker: Text,
    amount: u64,
    to_out_idx: u32,
    change_out_idx: Option<u32>,
) -> Edict {
    let applied = send_applies(tx, pool, mixed, ticker, amount, to_out_idx);
    let transfer = TransferModel {
        txid: tx.txid,
        block_height: tx.block_height,
        block_hash: tx.block_hash,
        sender: tx.sender,
        ticker,
        amount,
        to_out_idx,
        change_out_idx,
        applied,
    };
    Edict {
        ledger: log_transfer(l, transfer),
        credit: if applied {
            Some((to_out_idx, Map::empty().insert(ticker, amount)))
        } else {
            None
        },
        pool: if applied {
            taken(pool, ticker, amount)
        } else {
            pool
        },
        change: usable_change(tx, change_out_idx),
    }
}

/// A deployment goes through: the ticker is free, the fee is paid and the inputs hold at
/// most one ticker.
pub open spec fn deploy_applies(l: LedgerModel, tx: TxModel, mixed: bool, ticker: Text) -> bool {
    !mixed && !l.tokens.contains_key(ticker) && pays_fee(tx, DEPLOY_PROTOCOL_FEE_SATS)
}

/// A deployment's edict: the ticker is registered with nothing minted.
pub open spec fn deploy_edict(
    l: LedgerModel,
    tx: TxModel,
    pool: Balances,
    mixed: bool,
    ticker: Text,
) -> Edict {
    let applied = deploy_applies(l, tx, mixed, ticker);
    let token = TokenModel {
        ticker,
        supply: REQUIRED_TOKEN_SUPPLY,
        minted: 0,
        deployer: tx.sender,
        deploy_txid: tx.txid,
        deploy_block: tx.block_height,
    };
    let deploy = DeployModel {
        txid: tx.txid,
        block_height: tx.block_height,
        block_hash: tx.block_hash,
        deployer: tx.sender,
        ticker,
        supply: REQUIRED_TOKEN_SUPPLY,
        applied,
    };
    Edict {
        ledger: log_deploy(
            LedgerModel {
                tokens: if applied {
                    l.tokens.insert(ticker, token)
                } else {
                    l.tokens
                },
                ..l
            },
            deploy,
        ),
        credit: None,
        pool,
        change: None,
    }
}

/// What a payload decrees on a ledger whose spent outputs are gone. A transaction that
/// is logged already decrees nothing more.
pub open spec fn edict(
    l: LedgerModel,
    tx: TxModel,
    pool: Balances,
    mixed: bool,
    payload: Option<PayloadModel>,
) -> Edict {
    match payload {
        Some(p) if !l.by_txid.contains_key(tx.txid) => match p {
            PayloadModel::Bet { tier, pick, ticker, win_out_idx, change_out_idx } => bet_edict(
                l,
                tx,
                pool,
                mixed,
                tier,
                pick,
                ticker,
                win_out_idx,
                change_out_idx,
            ),
            PayloadModel::Xfer { ticker, amount, to_out_idx, change_out_idx } => send_edict(
                l,
                tx,
                pool,
                mixed,
                ticker,
                amount,
                to_out_idx,
                change_out_idx,
            ),
            PayloadModel::Deploy { ticker } => deploy_edict(l, tx, pool, mixed, ticker),
        },
        _ => Edict { ledger: l, credit: None, pool, change: None },
    }
}

// ---------------------------------------------------------------------------
// Putting tokens on outputs.
// ---------------------------------------------------------------------------

/// `balance` is put on output `idx` of the transaction.
pub open spec fn commit(l: LedgerModel, tx: TxModel, idx: u32, balance: Balances) -> LedgerModel {
    let key = outpoint(tx.txid, idx);
    let address = address_of(tx, idx);
    let before = if l.utxos.contains_key(key) {
        l.utxos[key]
    } else {
        UtxoModel { address: None, balances: Map::empty() }
    };
    LedgerModel {
        utxos: l.utxos.insert(
            key,
            UtxoModel {
                address: if before.address is None {
                    address
                } else {
                    before.address
                },
                balances: merged(before.balances, balance),
            },
        ),
        addrs: entered(l.addrs, address, key),
        ..l
    }
}

/// The ledger with the payload's credit on its output.
pub open spec fn credited(e: Edict, tx: TxModel) -> LedgerModel {
    match e.credit {
        Some((idx, balance)) => commit(e.ledger, tx, idx, balance),
        None => e.ledger,
    }
}

/// The ledger with the credit and the residual pool on their outputs. A pool without a
/// change output is burned.
pub open spec fn routed(e: Edict, tx: TxModel) -> LedgerModel {
    match e.change {
        Some(idx) if e.pool != Map::<Text, u64>::empty() => commit(
            credited(e, tx),
            tx,
            idx,
            e.pool,
        ),
        _ => credited(e, tx),
    }
}

// ---------------------------------------------------------------------------
// One transaction.
// ---------------------------------------------------------------------------

/// The transaction's block is one in which the protocol holds.
pub open spec fn active(tx: TxModel) -> bool {
    tx.block_height >= LCKPROTOCOL_V1_HEIGHT
}

/// What the transaction decrees.
pub open spec fn tx_edict(l: LedgerModel, tx: TxModel, payload: Option<PayloadModel>) -> Edict {
    let pool = drained(l, tx).pool;
    edict(spend(l, tx), tx, usable_pool(pool), mixes(pool), payload)
}

/// The ledger after a transaction.
pub open spec fn applied(l: LedgerModel, tx: TxModel, payload: Option<PayloadModel>) -> LedgerModel {
    if active(tx) {
        routed(tx_edict(l, tx, payload), tx)
    } else {
        l
    }
}

/// Whether a transaction releases tokens or adds to a log.
pub open spec fn touches(l: LedgerModel, tx: TxModel, payload: Option<PayloadModel>) -> bool {
    active(tx) && (drained(l, tx).pool != Map::<Text, u64>::empty() || (payload is Some
        && !l.by_txid.contains_key(tx.txid)))
}

} // verus!
