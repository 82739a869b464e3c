//! What holds of the ledger whatever transactions come.
use vstd::prelude::*;

verus! {

use crate::indexer::{
    balances_of, ends_key, key_len, key_start, last_restorable, lemma_ends_key_unique,
    lemma_first_at_unique, masked, physical, restorable, ring_push, total_of, BetStatus, EntryRef,
    SnapshotModel, KEY_MARKER, KEY_REDACTED, MAX_BETS_VEC, MAX_DEPLOYS_VEC, MAX_TRANSFERS_VEC,
    SNAPSHOT_RING_SIZE,
};
use crate::ledger::{
    active, address_of, amount_in, applied, bet_counts, bet_outcome, bet_txids, capped_reward,
    commit, credited, deploy_applies, deploy_txids, drain, drained, edict, empty_ledger, evicted,
    forgotten, log_bet, log_deploy, log_transfer, logged, logged_idx, merged, minted_more, mixes,
    outpoint, outpoints_of, pays_fee, sat, send_applies, spend, struck, touches, transfer_txids,
    tx_edict, usable, usable_change, usable_pool, Balances, BetModel, DeployModel, Drained,
    LedgerModel, Text, TokenModel, TransferModel, TxModel, UtxoModel,
};
use crate::protocol::{
    canonical_uint, hex_digit, hit, is_tier, lemma_picks_are_ascii, payload_of, pick_ok, reward_of, tail_of,
    ticker_char, ticker_ok, PayloadModel, DEPLOY_PROTOCOL_FEE_SATS, MAX_OUT_IDX, MAX_SEND_AMT,
    MINE_PROTOCOL_FEE_SATS, PROTOCOL_PREFIX, REQUIRED_TOKEN_SUPPLY, SEND_PROTOCOL_FEE_SATS,
};
use crate::sums::{lemma_sum_remove, lemma_sum_same};
use crate::text::{
    ascii_lower, contains_text, decimal, digits_value, fields, first_at, free_of, is_digit, joined,
    lemma_canonical_is_decimal, lemma_decimal_injective, lemma_decimal_value, lemma_fields_joined,
    lemma_joined_fields, lower, lower_char, occurs_at,
};
use vstd::utf8::{
    decode_utf8, decode_utf8_encode_utf8, encode_utf8, encode_utf8_decode_utf8,
    encode_utf8_valid_utf8, is_ascii_chars,
};

// ---------------------------------------------------------------------------
// Supply.
// ---------------------------------------------------------------------------

/// What has been minted of a ticker.
pub open spec fn minted_of(tokens: Map<Text, TokenModel>, ticker: Text) -> u64 {
    if tokens.contains_key(ticker) {
        tokens[ticker].minted
    } else {
        0
    }
}

/// Every token has the fixed supply and no more than that is minted, and the outputs hold
/// no more of a ticker than is minted of it.
pub open spec fn backed(l: LedgerModel) -> bool {
    &&& l.utxos.dom().finite()
    &&& forall|t: Text| #[trigger]
        l.tokens.contains_key(t) ==> l.tokens[t].supply == REQUIRED_TOKEN_SUPPLY && l.tokens[t].minted
            <= REQUIRED_TOKEN_SUPPLY
    &&& forall|t: Text| #[trigger] total_of(l.utxos, t) <= minted_of(l.tokens, t)
}

/// What a transaction destroys of a ticker: all of a mixed pool, and a residual pool
/// without a change output.
pub open spec fn burned(
    l: LedgerModel,
    tx: TxModel,
    payload: Option<PayloadModel>,
    ticker: Text,
) -> nat {
    let pool = drained(l, tx).pool;
    let e = tx_edict(l, tx, payload);
    if !active(tx) {
        0
    } else if mixes(pool) {
        amount_in(pool, ticker) as nat
    } else if e.change is None {
        amount_in(e.pool, ticker) as nat
    } else {
        0
    }
}

proof fn lemma_total_remove(utxos: Map<Text, UtxoModel>, k: Text, t: Text)
    requires
        utxos.dom().finite(),
        utxos.contains_key(k),
    ensures
        utxos.remove(k).dom().finite(),
        total_of(utxos, t) == total_of(utxos.remove(k), t) + amount_in(utxos[k].balances, t),
{
    let f = |w: Text| amount_in(utxos[w].balances, t) as nat;
    let less = utxos.remove(k);
    let g = |w: Text| amount_in(less[w].balances, t) as nat;
    lemma_sum_remove(utxos.dom(), f, k);
    assert(less.dom() =~= utxos.dom().remove(k));
    assert forall|w: Text| less.dom().contains(w) implies #[trigger] f(w) == g(w) by {
        assert(less[w] == utxos[w]);
    }
    lemma_sum_same(less.dom(), f, g);
}

proof fn lemma_total_insert(utxos: Map<Text, UtxoModel>, k: Text, e: UtxoModel, t: Text)
    requires
        utxos.dom().finite(),
    ensures
        utxos.insert(k, e).dom().finite(),
        total_of(utxos.insert(k, e), t) + (if utxos.contains_key(k) {
            amount_in(utxos[k].balances, t)
        } else {
            0
        }) == total_of(utxos, t) + amount_in(e.balances, t),
{
    let more = utxos.insert(k, e);
    assert(more.dom() =~= utxos.dom().insert(k));
    lemma_total_remove(more, k, t);
    if utxos.contains_key(k) {
        lemma_total_remove(utxos, k, t);
        assert(more.remove(k) =~= utxos.remove(k));
    } else {
        assert(more.remove(k) =~= utxos);
    }
}

proof fn lemma_drain_total(d: Drained, spent: Seq<(Text, u32)>, t: Text)
    requires
        d.utxos.dom().finite(),
        total_of(d.utxos, t) + amount_in(d.pool, t) <= u64::MAX,
    ensures
        drain(d, spent).utxos.dom().finite(),
        total_of(drain(d, spent).utxos, t) + amount_in(drain(d, spent).pool, t) == total_of(
            d.utxos,
            t,
        ) + amount_in(d.pool, t),
    decreases spent.len(),
{
    if spent.len() > 0 {
        lemma_drain_total(d, spent.drop_last(), t);
        let before = drain(d, spent.drop_last());
        let key = outpoint(spent.last().0, spent.last().1);
        if before.utxos.contains_key(key) {
            lemma_total_remove(before.utxos, key, t);
        }
    }
}

proof fn lemma_commit_total(l: LedgerModel, tx: TxModel, idx: u32, balance: Balances, t: Text)
    requires
        l.utxos.dom().finite(),
        total_of(l.utxos, t) + amount_in(balance, t) <= u64::MAX,
    ensures
        commit(l, tx, idx, balance).utxos.dom().finite(),
        total_of(commit(l, tx, idx, balance).utxos, t) == total_of(l.utxos, t) + amount_in(
            balance,
            t,
        ),
{
    let key = outpoint(tx.txid, idx);
    let after = commit(l, tx, idx, balance);
    lemma_total_insert(l.utxos, key, after.utxos[key], t);
    if l.utxos.contains_key(key) {
        lemma_total_remove(l.utxos, key, t);
    }
}

/// The payload only moves the pool and mints: what it credits and leaves in the pool is
/// what was in the pool and what it mints.
proof fn lemma_edict_total(
    l: LedgerModel,
    tx: TxModel,
    pool: Balances,
    mixed: bool,
    payload: Option<PayloadModel>,
    t: Text,
)
    requires
        forall|u: Text| #[trigger]
            l.tokens.contains_key(u) ==> l.tokens[u].supply == REQUIRED_TOKEN_SUPPLY
                && l.tokens[u].minted <= REQUIRED_TOKEN_SUPPLY,
    ensures
        ({
            let e = edict(l, tx, pool, mixed, payload);
            &&& e.ledger.utxos == l.utxos
            &&& forall|u: Text| #[trigger]
                e.ledger.tokens.contains_key(u) ==> e.ledger.tokens[u].supply
                    == REQUIRED_TOKEN_SUPPLY && e.ledger.tokens[u].minted <= REQUIRED_TOKEN_SUPPLY
            &&& (match e.credit {
                Some((_, b)) => amount_in(b, t),
                None => 0,
            }) + amount_in(e.pool, t) + minted_of(l.tokens, t) == amount_in(pool, t) + minted_of(
                e.ledger.tokens,
                t,
            )
        }),
{
}

/// A transaction creates no tokens but those that a wager mints, and destroys none but
/// those that it burns: for every ticker, what the outputs hold afterwards and what is
/// burned is what they held before and what is minted.
pub proof fn law_conservation(
    l: LedgerModel,
    tx: TxModel,
    payload: Option<PayloadModel>,
    ticker: Text,
)
    requires
        backed(l),
    ensures
        ({
            let after = applied(l, tx, payload);
            total_of(after.utxos, ticker) + burned(l, tx, payload, ticker) + minted_of(
                l.tokens,
                ticker,
            ) == total_of(l.utxos, ticker) + minted_of(after.tokens, ticker)
        }),
        applied(l, tx, payload).utxos.dom().finite(),
{
    assert(total_of(l.utxos, ticker) <= minted_of(l.tokens, ticker));
    assert(minted_of(l.tokens, ticker) <= REQUIRED_TOKEN_SUPPLY);
    if active(tx) {
        let d0 = Drained { utxos: l.utxos, addrs: l.addrs, pool: Map::empty() };
        lemma_drain_total(d0, tx.spent, ticker);
        let released = drained(l, tx).pool;
        let e = tx_edict(l, tx, payload);
        lemma_edict_total(spend(l, tx), tx, usable_pool(released), mixes(released), payload, ticker);
        assert(minted_of(e.ledger.tokens, ticker) <= REQUIRED_TOKEN_SUPPLY);
        if let Some((idx, b)) = e.credit {
            lemma_commit_total(e.ledger, tx, idx, b, ticker);
        }
        if let Some(idx) = e.change {
            if e.pool != Map::<Text, u64>::empty() {
                lemma_commit_total(credited(e, tx), tx, idx, e.pool, ticker);
            }
        }
    }
}

/// The supply cap holds after every transaction: no token is ever minted beyond its
/// supply, and no outputs ever hold more than was minted.
pub proof fn law_supply_is_capped(l: LedgerModel, tx: TxModel, payload: Option<PayloadModel>)
    requires
        backed(l),
    ensures
        backed(applied(l, tx, payload)),
{
    let after = applied(l, tx, payload);
    law_conservation(l, tx, payload, Seq::empty());
    if active(tx) {
        let released = drained(l, tx).pool;
        lemma_edict_total(
            spend(l, tx),
            tx,
            usable_pool(released),
            mixes(released),
            payload,
            Seq::empty(),
        );
        assert(after.tokens == tx_edict(l, tx, payload).ledger.tokens);
    }
    assert forall|t: Text| #[trigger] total_of(after.utxos, t) <= minted_of(after.tokens, t) by {
        law_conservation(l, tx, payload, t);
        assert(total_of(l.utxos, t) <= minted_of(l.tokens, t));
    }
}

/// Tokens spent by a transaction without a payload are destroyed, as are those spent by a
/// deployment or by a transaction that is logged already.
pub proof fn law_spend_without_change_burns(
    l: LedgerModel,
    tx: TxModel,
    payload: Option<PayloadModel>,
    ticker: Text,
)
    requires
        active(tx),
        payload is None || payload->0 is Deploy || l.by_txid.contains_key(tx.txid),
    ensures
        burned(l, tx, payload, ticker) == amount_in(drained(l, tx).pool, ticker),
{
}

/// A transfer or wager that names a usable change output burns nothing, unless its inputs
/// mix tickers.
pub proof fn law_change_output_keeps_residual(
    l: LedgerModel,
    tx: TxModel,
    payload: PayloadModel,
    change: u32,
    ticker: Text,
)
    requires
        match payload {
            PayloadModel::Bet { change_out_idx, .. } => change_out_idx == Some(change),
            PayloadModel::Xfer { change_out_idx, .. } => change_out_idx == Some(change),
            PayloadModel::Deploy { .. } => false,
        },
        usable(tx, change),
        !l.by_txid.contains_key(tx.txid),
        !mixes(drained(l, tx).pool),
    ensures
        burned(l, tx, Some(payload), ticker) == 0,
{
}

/// Inputs that mix tickers void the transaction: nothing is minted, moved or registered,
/// and its whole pool is destroyed.
pub proof fn law_mixed_inputs_void(l: LedgerModel, tx: TxModel, payload: Option<PayloadModel>)
    requires
        active(tx),
        mixes(drained(l, tx).pool),
    ensures
        applied(l, tx, payload).tokens == l.tokens,
        applied(l, tx, payload).utxos == drained(l, tx).utxos,
        forall|t: Text|
            burned(l, tx, payload, t) == #[trigger] amount_in(drained(l, tx).pool, t),
{
}

// ---------------------------------------------------------------------------
// What the three payloads do.
// ---------------------------------------------------------------------------

/// What an output holds of a ticker.
pub open spec fn amount_at(utxos: Map<Text, UtxoModel>, key: Text, ticker: Text) -> u64 {
    if utxos.contains_key(key) {
        amount_in(utxos[key].balances, ticker)
    } else {
        0
    }
}

/// The fee that a payload asks for.
pub open spec fn fee_of(payload: PayloadModel) -> u64 {
    match payload {
        PayloadModel::Bet { .. } => MINE_PROTOCOL_FEE_SATS,
        PayloadModel::Xfer { .. } => SEND_PROTOCOL_FEE_SATS,
        PayloadModel::Deploy { .. } => DEPLOY_PROTOCOL_FEE_SATS,
    }
}

/// The change output that a payload names, where the transaction can use it.
pub open spec fn change_of(tx: TxModel, payload: PayloadModel) -> Option<u32> {
    match payload {
        PayloadModel::Bet { change_out_idx, .. } => usable_change(tx, change_out_idx),
        PayloadModel::Xfer { change_out_idx, .. } => usable_change(tx, change_out_idx),
        PayloadModel::Deploy { .. } => None,
    }
}

/// The amount that an output holds grows by what is put on it, and no other output of
/// the transaction changes.
pub proof fn lemma_commit_amount(l: LedgerModel, tx: TxModel, idx: u32, b: Balances, v: u32, ticker: Text)
    ensures
        amount_at(commit(l, tx, idx, b).utxos, outpoint(tx.txid, v), ticker) == (if v == idx {
            sat(
                (amount_at(l.utxos, outpoint(tx.txid, v), ticker) + amount_in(b, ticker)) as nat,
            )
        } else {
            amount_at(l.utxos, outpoint(tx.txid, v), ticker)
        }),
{
    if v != idx && outpoint(tx.txid, v) == outpoint(tx.txid, idx) {
        law_outpoint_keys_are_distinct(tx.txid, v, tx.txid, idx);
    }
}

/// A transfer that goes through puts its amount on the recipient output, and what is left
/// of the pool on the change output.
pub proof fn law_send_moves_the_amount(
    l: LedgerModel,
    tx: TxModel,
    ticker: Text,
    amount: u64,
    to: u32,
    change: u32,
)
    requires
        active(tx),
        !l.by_txid.contains_key(tx.txid),
        send_applies(tx, drained(l, tx).pool, mixes(drained(l, tx).pool), ticker, amount, to),
        usable(tx, change),
        to != change,
    ensures
        ({
            let payload = PayloadModel::Xfer {
                ticker,
                amount,
                to_out_idx: to,
                change_out_idx: Some(change),
            };
            let before = drained(l, tx).utxos;
            let after = applied(l, tx, Some(payload));
            let left = amount_in(drained(l, tx).pool, ticker) - amount;
            &&& amount_at(after.utxos, outpoint(tx.txid, to), ticker) == sat(
                (amount_at(before, outpoint(tx.txid, to), ticker) + amount) as nat,
            )
            &&& amount_at(after.utxos, outpoint(tx.txid, change), ticker) == sat(
                (amount_at(before, outpoint(tx.txid, change), ticker) + left) as nat,
            )
            &&& after.tokens == l.tokens
            &&& after.transfers.last().txid == tx.txid
            &&& after.transfers.last().applied
        }),
{
    let payload = PayloadModel::Xfer {
        ticker,
        amount,
        to_out_idx: to,
        change_out_idx: Some(change),
    };
    let e = tx_edict(l, tx, Some(payload));
    let pool = drained(l, tx).pool;
    let credit = Map::<Text, u64>::empty().insert(ticker, amount);
    assert(e.credit == Some((to, credit)));
    assert(amount_in(e.pool, ticker) == amount_in(pool, ticker) - amount);
    lemma_commit_amount(e.ledger, tx, to, credit, to, ticker);
    lemma_commit_amount(e.ledger, tx, to, credit, change, ticker);
    lemma_commit_amount(credited(e, tx), tx, change, e.pool, to, ticker);
    lemma_commit_amount(credited(e, tx), tx, change, e.pool, change, ticker);
}

/// A wager that counts and hits mints its reward, as far as the supply lasts, to the
/// output that it names; the residual pool adds to it where the same output takes the
/// change.
pub proof fn law_hit_mints_the_reward(
    l: LedgerModel,
    tx: TxModel,
    tier: Text,
    pick: Text,
    ticker: Text,
    win: u32,
    change: Option<u32>,
)
    requires
        active(tx),
        !l.by_txid.contains_key(tx.txid),
        bet_counts(l, tx, mixes(drained(l, tx).pool), ticker, win),
        hit(tier, pick, tx.block_hash) == Some(true),
        l.tokens[ticker].minted <= l.tokens[ticker].supply,
    ensures
        ({
            let payload = PayloadModel::Bet {
                tier,
                pick,
                ticker,
                win_out_idx: win,
                change_out_idx: change,
            };
            let before = drained(l, tx).utxos;
            let after = applied(l, tx, Some(payload));
            let reward = capped_reward(l.tokens[ticker], tier);
            let residual = if change == Some(win) {
                amount_in(drained(l, tx).pool, ticker)
            } else {
                0u64
            };
            &&& after.tokens[ticker].minted == l.tokens[ticker].minted + reward
            &&& amount_at(after.utxos, outpoint(tx.txid, win), ticker) == sat(
                (amount_at(before, outpoint(tx.txid, win), ticker) + reward + residual) as nat,
            )
            &&& after.bets.last().txid == tx.txid
            &&& after.bets.last().status == BetStatus::Settled
            &&& after.bets.last().win == Some(reward > 0)
            &&& after.bets.last().reward_smallest == reward
            &&& after.bets.last().cap_exhausted == (reward == 0)
        }),
{
    let payload = PayloadModel::Bet { tier, pick, ticker, win_out_idx: win, change_out_idx: change };
    let e = tx_edict(l, tx, Some(payload));
    let reward = capped_reward(l.tokens[ticker], tier);
    let credit = Map::<Text, u64>::empty().insert(ticker, reward);
    if reward > 0 {
        assert(e.credit == Some((win, credit)));
        lemma_commit_amount(e.ledger, tx, win, credit, win, ticker);
    }
    if let Some(c) = e.change {
        lemma_commit_amount(credited(e, tx), tx, c, e.pool, win, ticker);
    }
}

/// A payload whose fee is not paid mints, moves and registers nothing and is logged as
/// refused; the pool still goes to the change output.
pub proof fn law_unpaid_fee_refuses(l: LedgerModel, tx: TxModel, payload: PayloadModel, v: u32, ticker: Text)
    requires
        active(tx),
        !l.by_txid.contains_key(tx.txid),
        !pays_fee(tx, fee_of(payload)),
    ensures
        ({
            let before = drained(l, tx);
            let after = applied(l, tx, Some(payload));
            let key = outpoint(tx.txid, v);
            let residual = if change_of(tx, payload) == Some(v) {
                amount_in(usable_pool(before.pool), ticker)
            } else {
                0u64
            };
            &&& after.tokens == l.tokens
            &&& amount_at(after.utxos, key, ticker) == sat(
                (amount_at(before.utxos, key, ticker) + residual) as nat,
            )
            &&& match payload {
                PayloadModel::Bet { .. } => after.bets.last().status == BetStatus::Invalid
                    && after.bets.last().txid == tx.txid,
                PayloadModel::Xfer { .. } => !after.transfers.last().applied
                    && after.transfers.last().txid == tx.txid,
                PayloadModel::Deploy { .. } => !after.deploys.last().applied
                    && after.deploys.last().txid == tx.txid,
            }
        }),
{
    let e = tx_edict(l, tx, Some(payload));
    assert(e.credit is None);
    assert(e.change == change_of(tx, payload));
    assert(e.pool == usable_pool(drained(l, tx).pool));
    if let Some(c) = e.change {
        lemma_commit_amount(e.ledger, tx, c, e.pool, v, ticker);
    }
}

/// A deployment of a free ticker with its fee paid registers it, with the fixed supply
/// and nothing minted.
pub proof fn law_deploy_registers(l: LedgerModel, tx: TxModel, ticker: Text)
    requires
        active(tx),
        !l.by_txid.contains_key(tx.txid),
        deploy_applies(l, tx, mixes(drained(l, tx).pool), ticker),
    ensures
        ({
            let after = applied(l, tx, Some(PayloadModel::Deploy { ticker }));
            &&& after.tokens == l.tokens.insert(
                ticker,
                TokenModel {
                    ticker,
                    supply: REQUIRED_TOKEN_SUPPLY,
                    minted: 0,
                    deployer: tx.sender,
                    deploy_txid: tx.txid,
                    deploy_block: tx.block_height,
                },
            )
            &&& after.utxos == drained(l, tx).utxos
            &&& after.deploys.last().txid == tx.txid
            &&& after.deploys.last().applied
        }),
{
}

// ---------------------------------------------------------------------------
// Activation and the registry.
// ---------------------------------------------------------------------------

/// Below the activation height nothing happens.
pub proof fn law_inert_before_activation(
    l: LedgerModel,
    tx: TxModel,
    payload: Option<PayloadModel>,
)
    requires
        !active(tx),
    ensures
        applied(l, tx, payload) == l,
        !touches(l, tx, payload),
{
}

/// A registered token stays registered as it was deployed, and only what is minted of it
/// can grow.
pub proof fn law_registry_is_append_only(
    l: LedgerModel,
    tx: TxModel,
    payload: Option<PayloadModel>,
    ticker: Text,
)
    requires
        l.tokens.contains_key(ticker),
    ensures
        ({
            let after = applied(l, tx, payload).tokens;
            &&& after.contains_key(ticker)
            &&& after[ticker].minted >= l.tokens[ticker].minted
            &&& after[ticker] == (TokenModel { minted: after[ticker].minted, ..l.tokens[ticker] })
        }),
{
}

/// The first deployment of a ticker wins: a later one is logged as not applied and
/// changes no token.
pub proof fn law_first_deploy_wins(l: LedgerModel, tx: TxModel, ticker: Text)
    requires
        active(tx),
        l.tokens.contains_key(ticker),
        !l.by_txid.contains_key(tx.txid),
    ensures
        applied(l, tx, Some(PayloadModel::Deploy { ticker })).tokens == l.tokens,
        applied(l, tx, Some(PayloadModel::Deploy { ticker })).deploys.last().ticker == ticker,
        !applied(l, tx, Some(PayloadModel::Deploy { ticker })).deploys.last().applied,
{
}

// ---------------------------------------------------------------------------
// Outpoint keys.
// ---------------------------------------------------------------------------

/// Different outputs have different keys; the case of a transaction id plays no part.
pub proof fn law_outpoint_keys_are_distinct(txid: Text, vout: u32, other: Text, index: u32)
    requires
        outpoint(txid, vout) == outpoint(other, index),
    ensures
        lower(txid) == lower(other),
        vout == index,
{
    let a = lower(txid);
    let b = lower(other);
    let x = decimal(vout as nat);
    let y = decimal(index as nat);
    let s = outpoint(txid, vout);
    crate::text::lemma_decimal_value(vout as nat);
    crate::text::lemma_decimal_value(index as nat);
    assert(s == a.push(':') + x && s == b.push(':') + y);
    assert(s.len() == a.len() + 1 + x.len() && s.len() == b.len() + 1 + y.len());
    assert(s[a.len() as int] == ':');
    assert(s[b.len() as int] == ':');
    if a.len() < b.len() {
        assert((a.push(':') + x)[b.len() as int] == x[b.len() - a.len() - 1]);
        assert(crate::text::is_digit(x[b.len() - a.len() - 1]));
    } else if b.len() < a.len() {
        assert((b.push(':') + y)[a.len() as int] == y[a.len() - b.len() - 1]);
        assert(crate::text::is_digit(y[a.len() - b.len() - 1]));
    }
    assert(a =~= s.take(a.len() as int));
    assert(b =~= s.take(b.len() as int));
    assert(x =~= s.skip((a.len() + 1) as int));
    assert(y =~= s.skip((b.len() + 1) as int));
    lemma_decimal_injective(vout as nat, index as nat);
}

// ---------------------------------------------------------------------------
// Which outputs change.
// ---------------------------------------------------------------------------

/// The key is that of an output that the transaction spends.
pub open spec fn spends(tx: TxModel, key: Text) -> bool {
    exists|i: int|
        0 <= i < tx.spent.len() && key == outpoint((#[trigger] tx.spent[i]).0, tx.spent[i].1)
}

/// The key is that of an output of the transaction that can hold tokens.
pub open spec fn creates(tx: TxModel, key: Text) -> bool {
    exists|v: u32| #[trigger] usable(tx, v) && key == outpoint(tx.txid, v)
}

pub proof fn lemma_drain_frame(d: Drained, spent: Seq<(Text, u32)>, key: Text)
    ensures
        ({
            let after = drain(d, spent).utxos;
            let hit = exists|i: int|
                0 <= i < spent.len() && key == outpoint((#[trigger] spent[i]).0, spent[i].1);
            &&& hit ==> !after.contains_key(key)
            &&& !hit ==> after.contains_key(key) == d.utxos.contains_key(key)
            &&& after.contains_key(key) ==> d.utxos.contains_key(key) && after[key] == d.utxos[key]
        }),
    decreases spent.len(),
{
    if spent.len() > 0 {
        let front = spent.drop_last();
        lemma_drain_frame(d, front, key);
        let last = outpoint(spent.last().0, spent.last().1);
        let hit = exists|i: int|
            0 <= i < spent.len() && key == outpoint((#[trigger] spent[i]).0, spent[i].1);
        let hit_front = exists|i: int|
            0 <= i < front.len() && key == outpoint((#[trigger] front[i]).0, front[i].1);
        if hit_front {
            let i = choose|i: int|
                0 <= i < front.len() && key == outpoint((#[trigger] front[i]).0, front[i].1);
            assert(spent[i] == front[i]);
            assert(hit);
        }
        if key == last {
            assert(spent[spent.len() - 1] == spent.last());
            assert(hit);
        }
        if hit && key != last {
            let i = choose|i: int|
                0 <= i < spent.len() && key == outpoint((#[trigger] spent[i]).0, spent[i].1);
            assert(front[i] == spent[i]);
            assert(hit_front);
        }
    }
}

/// Only the outputs that a transaction spends or creates change: a spent output is gone,
/// a created one can appear, every other output holds what it held. An `OP_RETURN` output
/// or one that does not exist is never among the created ones.
pub proof fn law_only_own_outputs_change(
    l: LedgerModel,
    tx: TxModel,
    payload: Option<PayloadModel>,
    key: Text,
)
    requires
        active(tx),
        !creates(tx, key),
    ensures
        ({
            let after = applied(l, tx, payload).utxos;
            &&& spends(tx, key) ==> !after.contains_key(key)
            &&& !spends(tx, key) ==> after.contains_key(key) == l.utxos.contains_key(key)
            &&& after.contains_key(key) ==> l.utxos.contains_key(key) && after[key] == l.utxos[key]
        }),
{
    lemma_drain_frame(
        Drained { utxos: l.utxos, addrs: l.addrs, pool: Map::empty() },
        tx.spent,
        key,
    );
    let e = tx_edict(l, tx, payload);
    assert(e.ledger.utxos == drained(l, tx).utxos);
    if let Some((idx, _)) = e.credit {
        assert(usable(tx, idx));
        assert(key != outpoint(tx.txid, idx));
    }
    if let Some(idx) = e.change {
        assert(usable(tx, idx));
        assert(key != outpoint(tx.txid, idx));
    }
}

/// No tokens are ever put on an `OP_RETURN` output, nor on one that does not exist.
pub proof fn law_unusable_outputs_stay_empty(
    l: LedgerModel,
    tx: TxModel,
    payload: Option<PayloadModel>,
    vout: u32,
)
    requires
        !usable(tx, vout),
        !l.utxos.contains_key(outpoint(tx.txid, vout)),
    ensures
        !applied(l, tx, payload).utxos.contains_key(outpoint(tx.txid, vout)),
{
    if active(tx) {
        let key = outpoint(tx.txid, vout);
        if creates(tx, key) {
            let v = choose|v: u32| #[trigger] usable(tx, v) && key == outpoint(tx.txid, v);
            law_outpoint_keys_are_distinct(tx.txid, vout, tx.txid, v);
        }
        law_only_own_outputs_change(l, tx, payload, key);
    }
}

// ---------------------------------------------------------------------------
// The index by address.
// ---------------------------------------------------------------------------

/// The index by address and the outputs describe each other: an address is listed with
/// exactly the outputs that it controls, and not at all without any.
pub open spec fn indexed(utxos: Map<Text, UtxoModel>, addrs: Map<Text, Set<Text>>) -> bool {
    &&& forall|a: Text| #[trigger] addrs.contains_key(a) ==> addrs[a] != Set::<Text>::empty()
    &&& forall|a: Text, k: Text| #[trigger]
        outpoints_of(addrs, a).contains(k) <==> utxos.contains_key(k) && utxos[k].address == Some(a)
}

/// Where an output of the transaction is held already, it is under the same address.
pub open spec fn addresses_agree(l: LedgerModel, tx: TxModel) -> bool {
    forall|v: u32|
        {
            let key = #[trigger] outpoint(tx.txid, v);
            l.utxos.contains_key(key) && l.utxos[key].address is Some && address_of(tx, v) is Some
                ==> l.utxos[key].address == address_of(tx, v)
        }
}

proof fn lemma_struck_indexed(utxos: Map<Text, UtxoModel>, addrs: Map<Text, Set<Text>>, key: Text)
    requires
        indexed(utxos, addrs),
        utxos.contains_key(key),
    ensures
        indexed(utxos.remove(key), struck(addrs, utxos[key].address, key)),
{
    let less = utxos.remove(key);
    let after = struck(addrs, utxos[key].address, key);
    assert forall|a: Text, k: Text| #[trigger]
        outpoints_of(after, a).contains(k) <==> less.contains_key(k) && less[k].address == Some(a) by {
        assert(outpoints_of(addrs, a).contains(k) <==> utxos.contains_key(k) && utxos[k].address
            == Some(a));
        assert(outpoints_of(addrs, a).contains(key) <==> utxos[key].address == Some(a));
        if utxos[key].address == Some(a) {
            assert(addrs.contains_key(a));
            if addrs[a].remove(key) == Set::<Text>::empty() {
                assert(!addrs[a].remove(key).contains(k));
            }
        }
    }
}

proof fn lemma_drain_indexed(d: Drained, spent: Seq<(Text, u32)>)
    requires
        indexed(d.utxos, d.addrs),
    ensures
        indexed(drain(d, spent).utxos, drain(d, spent).addrs),
    decreases spent.len(),
{
    if spent.len() > 0 {
        lemma_drain_indexed(d, spent.drop_last());
        let before = drain(d, spent.drop_last());
        let key = outpoint(spent.last().0, spent.last().1);
        if before.utxos.contains_key(key) {
            lemma_struck_indexed(before.utxos, before.addrs, key);
        }
    }
}

proof fn lemma_commit_indexed(l: LedgerModel, tx: TxModel, idx: u32, balance: Balances)
    requires
        indexed(l.utxos, l.addrs),
        addresses_agree(l, tx),
    ensures
        indexed(commit(l, tx, idx, balance).utxos, commit(l, tx, idx, balance).addrs),
        addresses_agree(commit(l, tx, idx, balance), tx),
{
    let key = outpoint(tx.txid, idx);
    let address = address_of(tx, idx);
    let after = commit(l, tx, idx, balance);
    assert forall|a: Text| #[trigger] after.addrs.contains_key(a) implies after.addrs[a]
        != Set::<Text>::empty() by {
        if address == Some(a) {
            assert(after.addrs[a].contains(key));
        }
    }
    assert forall|a: Text, k: Text| #[trigger]
        outpoints_of(after.addrs, a).contains(k) <==> after.utxos.contains_key(k)
            && after.utxos[k].address == Some(a) by {
        assert(outpoints_of(l.addrs, a).contains(k) <==> l.utxos.contains_key(k)
            && l.utxos[k].address == Some(a));
    }
    assert forall|v: u32|
        {
            let k = #[trigger] outpoint(tx.txid, v);
            after.utxos.contains_key(k) && after.utxos[k].address is Some && address_of(tx, v) is Some
                ==> after.utxos[k].address == address_of(tx, v)
        } by {
        if outpoint(tx.txid, v) == key {
            law_outpoint_keys_are_distinct(tx.txid, v, tx.txid, idx);
        }
    }
}

/// The outputs that an address controls.
pub open spec fn controlled(utxos: Map<Text, UtxoModel>, address: Text) -> Set<Text> {
    utxos.dom().filter(|k: Text| utxos[k].address == Some(address))
}

/// What an address is said to hold is what the outputs that it controls hold together.
pub proof fn law_address_holds_its_outputs(
    utxos: Map<Text, UtxoModel>,
    addrs: Map<Text, Set<Text>>,
    address: Text,
)
    requires
        indexed(utxos, addrs),
    ensures
        outpoints_of(addrs, address) == controlled(utxos, address),
        balances_of(utxos, outpoints_of(addrs, address)) == balances_of(
            utxos,
            controlled(utxos, address),
        ),
{
    assert(outpoints_of(addrs, address) =~= controlled(utxos, address));
}

/// Every transaction keeps the index by address in step with the outputs, unless one of
/// its outputs is held already under another address.
pub proof fn law_address_index_in_step(
    l: LedgerModel,
    tx: TxModel,
    payload: Option<PayloadModel>,
)
    requires
        indexed(l.utxos, l.addrs),
        addresses_agree(l, tx),
    ensures
        indexed(applied(l, tx, payload).utxos, applied(l, tx, payload).addrs),
{
    if active(tx) {
        let d0 = Drained { utxos: l.utxos, addrs: l.addrs, pool: Map::empty() };
        lemma_drain_indexed(d0, tx.spent);
        let e = tx_edict(l, tx, payload);
        assert(e.ledger.utxos == drained(l, tx).utxos && e.ledger.addrs == drained(l, tx).addrs);
        assert(addresses_agree(e.ledger, tx)) by {
            assert forall|v: u32|
                {
                    let k = #[trigger] outpoint(tx.txid, v);
                    e.ledger.utxos.contains_key(k) && e.ledger.utxos[k].address is Some && address_of(
                        tx,
                        v,
                    ) is Some ==> e.ledger.utxos[k].address == address_of(tx, v)
                } by {
                lemma_drain_frame(d0, tx.spent, outpoint(tx.txid, v));
            }
        }
        if let Some((idx, b)) = e.credit {
            lemma_commit_indexed(e.ledger, tx, idx, b);
        }
        if let Some(idx) = e.change {
            if e.pool != Map::<Text, u64>::empty() {
                lemma_commit_indexed(credited(e, tx), tx, idx, e.pool);
            }
        }
    }
}

// ---------------------------------------------------------------------------
// Entries carry tokens.
// ---------------------------------------------------------------------------

/// Some amount, and no amount is zero or of a ticker that is not registered.
pub open spec fn substantial(b: Balances, tokens: Map<Text, TokenModel>) -> bool {
    forall|t: Text| #[trigger] b.contains_key(t) ==> b[t] > 0 && tokens.contains_key(t)
}

/// Every output that is held carries tokens: positive amounts of registered tickers.
pub open spec fn carrying(l: LedgerModel) -> bool {
    forall|k: Text| #[trigger]
        l.utxos.contains_key(k) ==> l.utxos[k].balances != Map::<Text, u64>::empty() && substantial(
            l.utxos[k].balances,
            l.tokens,
        )
}

/// A transfer moves something.
pub open spec fn moves(payload: Option<PayloadModel>) -> bool {
    match payload {
        Some(PayloadModel::Xfer { amount, .. }) => amount > 0,
        _ => true,
    }
}

proof fn lemma_merged_nonempty(a: Balances, b: Balances)
    ensures
        (merged(a, b) == Map::<Text, u64>::empty()) == (a == Map::<Text, u64>::empty() && b == Map::<
            Text,
            u64,
        >::empty()),
{
    if a != Map::<Text, u64>::empty() {
        assert(!(a =~= Map::<Text, u64>::empty()));
        let t = choose|t: Text| a.dom().contains(t);
        assert(merged(a, b).contains_key(t));
    }
    if b != Map::<Text, u64>::empty() {
        assert(!(b =~= Map::<Text, u64>::empty()));
        let t = choose|t: Text| b.dom().contains(t);
        assert(merged(a, b).contains_key(t));
    }
    if a == Map::<Text, u64>::empty() && b == Map::<Text, u64>::empty() {
        assert(merged(a, b) =~= Map::<Text, u64>::empty());
    }
}

proof fn lemma_drain_carrying(
    d: Drained,
    spent: Seq<(Text, u32)>,
    tokens: Map<Text, TokenModel>,
)
    requires
        forall|k: Text| #[trigger]
            d.utxos.contains_key(k) ==> d.utxos[k].balances != Map::<Text, u64>::empty()
                && substantial(d.utxos[k].balances, tokens),
        substantial(d.pool, tokens),
    ensures
        ({
            let after = drain(d, spent);
            &&& forall|k: Text| #[trigger]
                after.utxos.contains_key(k) ==> after.utxos[k].balances != Map::<Text, u64>::empty()
                    && substantial(after.utxos[k].balances, tokens)
            &&& substantial(after.pool, tokens)
            &&& after.pool == Map::<Text, u64>::empty() ==> after == d
        }),
    decreases spent.len(),
{
    if spent.len() > 0 {
        lemma_drain_carrying(d, spent.drop_last(), tokens);
        let before = drain(d, spent.drop_last());
        let key = outpoint(spent.last().0, spent.last().1);
        if before.utxos.contains_key(key) {
            lemma_merged_nonempty(before.pool, before.utxos[key].balances);
        }
    }
}

proof fn lemma_commit_carrying(l: LedgerModel, tx: TxModel, idx: u32, balance: Balances)
    requires
        carrying(l),
        substantial(balance, l.tokens),
        balance != Map::<Text, u64>::empty(),
    ensures
        carrying(commit(l, tx, idx, balance)),
{
    let key = outpoint(tx.txid, idx);
    let before = if l.utxos.contains_key(key) {
        l.utxos[key].balances
    } else {
        Map::empty()
    };
    lemma_merged_nonempty(before, balance);
}

/// Every output that is held after a transaction carries tokens.
pub proof fn law_held_outputs_carry_tokens(
    l: LedgerModel,
    tx: TxModel,
    payload: Option<PayloadModel>,
)
    requires
        carrying(l),
        moves(payload),
    ensures
        carrying(applied(l, tx, payload)),
{
    if active(tx) {
        let d0 = Drained { utxos: l.utxos, addrs: l.addrs, pool: Map::empty() };
        lemma_drain_carrying(d0, tx.spent, l.tokens);
        let e = tx_edict(l, tx, payload);
        assert(e.ledger.utxos == drained(l, tx).utxos);
        assert(forall|t: Text| #[trigger]
            l.tokens.contains_key(t) ==> e.ledger.tokens.contains_key(t));
        assert(carrying(e.ledger));
        assert(substantial(e.pool, e.ledger.tokens));
        if let Some((idx, b)) = e.credit {
            let ticker = match payload {
                Some(PayloadModel::Bet { ticker, .. }) => ticker,
                Some(PayloadModel::Xfer { ticker, .. }) => ticker,
                _ => Seq::empty(),
            };
            assert(b.contains_key(ticker));
            lemma_commit_carrying(e.ledger, tx, idx, b);
        }
        if let Some(idx) = e.change {
            if e.pool != Map::<Text, u64>::empty() {
                lemma_commit_carrying(credited(e, tx), tx, idx, e.pool);
            }
        }
    }
}

/// A transaction that reports no change changes nothing.
pub proof fn law_unreported_means_unchanged(
    l: LedgerModel,
    tx: TxModel,
    payload: Option<PayloadModel>,
)
    requires
        carrying(l),
        !touches(l, tx, payload),
    ensures
        applied(l, tx, payload) == l,
{
    if active(tx) {
        let d0 = Drained { utxos: l.utxos, addrs: l.addrs, pool: Map::empty() };
        lemma_drain_carrying(d0, tx.spent, l.tokens);
        assert(!mixes(drained(l, tx).pool));
        assert(applied(l, tx, payload) =~= l);
    }
}

/// A transaction that comes again changes nothing, unless it spends its own outputs.
pub proof fn law_second_application_is_inert(
    l: LedgerModel,
    tx: TxModel,
    payload: Option<PayloadModel>,
)
    requires
        forall|k: Text| #[trigger] spends(tx, k) ==> !creates(tx, k),
    ensures
        applied(applied(l, tx, payload), tx, payload) == applied(l, tx, payload),
        !touches(applied(l, tx, payload), tx, payload),
{
    if active(tx) {
        let once = applied(l, tx, payload);
        let d0 = Drained { utxos: once.utxos, addrs: once.addrs, pool: Map::empty() };
        assert forall|i: int| 0 <= i < tx.spent.len() implies !once.utxos.contains_key(
            outpoint((#[trigger] tx.spent[i]).0, tx.spent[i].1),
        ) by {
            let key = outpoint(tx.spent[i].0, tx.spent[i].1);
            assert(spends(tx, key));
            law_only_own_outputs_change(l, tx, payload, key);
        }
        lemma_drain_nothing(d0, tx.spent);
        assert(drained(once, tx) == d0);
        assert(!mixes(d0.pool));
        assert(payload is Some ==> once.by_txid.contains_key(tx.txid));
        assert(applied(once, tx, payload) =~= once);
    }
}

proof fn lemma_drain_nothing(d: Drained, spent: Seq<(Text, u32)>)
    requires
        forall|i: int|
            0 <= i < spent.len() ==> !d.utxos.contains_key(
                outpoint((#[trigger] spent[i]).0, spent[i].1),
            ),
    ensures
        drain(d, spent) == d,
    decreases spent.len(),
{
    if spent.len() > 0 {
        let front = spent.drop_last();
        assert forall|i: int| 0 <= i < front.len() implies !d.utxos.contains_key(
            outpoint((#[trigger] front[i]).0, front[i].1),
        ) by {
            assert(spent[i] == front[i]);
        }
        lemma_drain_nothing(d, front);
        assert(spent[spent.len() - 1] == spent.last());
    }
}

// ---------------------------------------------------------------------------
// The logs.
// ---------------------------------------------------------------------------

/// The index by transaction and the logs describe each other: each entry is found under
/// its transaction at its logical index, and nothing else is found. No log is over its
/// cap.
pub open spec fn logs_linked(l: LedgerModel) -> bool {
    &&& l.bets.len() <= MAX_BETS_VEC
    &&& l.transfers.len() <= MAX_TRANSFERS_VEC
    &&& l.deploys.len() <= MAX_DEPLOYS_VEC
    &&& forall|i: int|
        0 <= i < l.bets.len() ==> {
            &&& l.by_txid.contains_key((#[trigger] l.bets[i]).txid)
            &&& l.by_txid[l.bets[i].txid] matches EntryRef::Bet { idx } && idx == l.bet_offset + i
        }
    &&& forall|i: int|
        0 <= i < l.transfers.len() ==> {
            &&& l.by_txid.contains_key((#[trigger] l.transfers[i]).txid)
            &&& l.by_txid[l.transfers[i].txid] matches EntryRef::Transfer { idx } && idx
                == l.transfer_offset + i
        }
    &&& forall|i: int|
        0 <= i < l.deploys.len() ==> {
            &&& l.by_txid.contains_key((#[trigger] l.deploys[i]).txid)
            &&& l.by_txid[l.deploys[i].txid] matches EntryRef::Deploy { idx } && idx
                == l.deploy_offset + i
        }
    &&& forall|t: Text| #[trigger] l.by_txid.contains_key(t) ==> found(l, t, l.by_txid[t])
}

/// The log entry that a reference names is one of transaction `txid`.
pub open spec fn found(l: LedgerModel, txid: Text, at: EntryRef) -> bool {
    match at {
        EntryRef::Bet { idx } => match physical(idx, l.bet_offset, l.bets.len()) {
            Some(i) => l.bets[i].txid == txid,
            None => false,
        },
        EntryRef::Transfer { idx } => match physical(idx, l.transfer_offset, l.transfers.len()) {
            Some(i) => l.transfers[i].txid == txid,
            None => false,
        },
        EntryRef::Deploy { idx } => match physical(idx, l.deploy_offset, l.deploys.len()) {
            Some(i) => l.deploys[i].txid == txid,
            None => false,
        },
    }
}

/// The logical indices have not run out: one more entry in each log can still be
/// numbered.
pub open spec fn numbers_left(l: LedgerModel) -> bool {
    &&& l.bet_offset + MAX_BETS_VEC < u64::MAX
    &&& l.transfer_offset + MAX_TRANSFERS_VEC < u64::MAX
    &&& l.deploy_offset + MAX_DEPLOYS_VEC < u64::MAX
}

proof fn lemma_forget_first(by_txid: Map<Text, EntryRef>, gone: Seq<Text>)
    requires
        gone.len() <= 1,
    ensures
        gone.len() == 0 ==> forgotten(by_txid, gone) == by_txid,
        gone.len() == 1 ==> forgotten(by_txid, gone) == by_txid.remove(gone[0]),
{
    if gone.len() == 0 {
        assert(forgotten(by_txid, gone) =~= by_txid);
    } else {
        assert forall|t: Text| gone.to_set().contains(t) <==> t == gone[0] by {
            if gone.contains(t) {
                let j = choose|j: int| 0 <= j < gone.len() && gone[j] == t;
                assert(j == 0);
            }
            if t == gone[0] {
                assert(gone.contains(t));
            }
        }
        assert(forgotten(by_txid, gone) =~= by_txid.remove(gone[0]));
    }
}

#[verifier::spinoff_prover]
proof fn lemma_log_bet(l: LedgerModel, bet: BetModel)
    requires
        logs_linked(l),
        numbers_left(l),
        !l.by_txid.contains_key(bet.txid),
    ensures
        logs_linked(log_bet(l, bet)),
{
    let n = evicted(l.bets.len(), MAX_BETS_VEC as nat);
    let gone = bet_txids(l.bets, n);
    let after = log_bet(l, bet);
    lemma_forget_first(l.by_txid, gone);
    if n == 1 {
        assert(gone[0] == l.bets[0].txid);
    }
    assert(after.bet_offset == l.bet_offset + n);
    assert forall|i: int| 0 <= i < after.bets.len() implies {
        &&& after.by_txid.contains_key((#[trigger] after.bets[i]).txid)
        &&& after.by_txid[after.bets[i].txid] matches EntryRef::Bet { idx } && idx
            == after.bet_offset + i
    } by {
        if i < after.bets.len() - 1 {
            assert(after.bets[i] == l.bets[i + n]);
        }
    }
    assert forall|i: int| 0 <= i < l.transfers.len() implies l.by_txid[(
    #[trigger] l.transfers[i]).txid] is Transfer by {}
    assert forall|i: int| 0 <= i < l.deploys.len() implies l.by_txid[(
    #[trigger] l.deploys[i]).txid] is Deploy by {}
    assert forall|t: Text| #[trigger] after.by_txid.contains_key(t) implies found(
        after,
        t,
        after.by_txid[t],
    ) by {
        if t == bet.txid {
            assert(after.bets.last() == bet);
        } else {
            assert(l.by_txid.contains_key(t));
            assert(found(l, t, l.by_txid[t]));
            if let EntryRef::Bet { idx } = l.by_txid[t] {
                assert(after.bets[idx - after.bet_offset] == l.bets[idx - l.bet_offset]);
            }
        }
    }
}

#[verifier::spinoff_prover]
proof fn lemma_log_transfer(l: LedgerModel, transfer: TransferModel)
    requires
        logs_linked(l),
        numbers_left(l),
        !l.by_txid.contains_key(transfer.txid),
    ensures
        logs_linked(log_transfer(l, transfer)),
{
    let n = evicted(l.transfers.len(), MAX_TRANSFERS_VEC as nat);
    let gone = transfer_txids(l.transfers, n);
    let after = log_transfer(l, transfer);
    lemma_forget_first(l.by_txid, gone);
    if n == 1 {
        assert(gone[0] == l.transfers[0].txid);
    }
    assert(after.transfer_offset == l.transfer_offset + n);
    assert forall|i: int| 0 <= i < after.transfers.len() implies {
        &&& after.by_txid.contains_key((#[trigger] after.transfers[i]).txid)
        &&& after.by_txid[after.transfers[i].txid] matches EntryRef::Transfer { idx } && idx
            == after.transfer_offset + i
    } by {
        if i < after.transfers.len() - 1 {
            assert(after.transfers[i] == l.transfers[i + n]);
        }
    }
    assert forall|i: int| 0 <= i < l.bets.len() implies l.by_txid[(
    #[trigger] l.bets[i]).txid] is Bet by {}
    assert forall|i: int| 0 <= i < l.deploys.len() implies l.by_txid[(
    #[trigger] l.deploys[i]).txid] is Deploy by {}
    assert forall|t: Text| #[trigger] after.by_txid.contains_key(t) implies found(
        after,
        t,
        after.by_txid[t],
    ) by {
        if t == transfer.txid {
            assert(after.transfers.last() == transfer);
        } else {
            assert(l.by_txid.contains_key(t));
            assert(found(l, t, l.by_txid[t]));
            if let EntryRef::Transfer { idx } = l.by_txid[t] {
                assert(after.transfers[idx - after.transfer_offset] == l.transfers[idx
                    - l.transfer_offset]);
            }
        }
    }
}

#[verifier::spinoff_prover]
proof fn lemma_log_deploy(l: LedgerModel, deploy: DeployModel)
    requires
        logs_linked(l),
        numbers_left(l),
        !l.by_txid.contains_key(deploy.txid),
    ensures
        logs_linked(log_deploy(l, deploy)),
{
    let n = evicted(l.deploys.len(), MAX_DEPLOYS_VEC as nat);
    let gone = deploy_txids(l.deploys, n);
    let after = log_deploy(l, deploy);
    lemma_forget_first(l.by_txid, gone);
    if n == 1 {
        assert(gone[0] == l.deploys[0].txid);
    }
    assert(after.deploy_offset == l.deploy_offset + n);
    assert forall|i: int| 0 <= i < after.deploys.len() implies {
        &&& after.by_txid.contains_key((#[trigger] after.deploys[i]).txid)
        &&& after.by_txid[after.deploys[i].txid] matches EntryRef::Deploy { idx } && idx
            == after.deploy_offset + i
    } by {
        if i < after.deploys.len() - 1 {
            assert(after.deploys[i] == l.deploys[i + n]);
        }
    }
    assert forall|i: int| 0 <= i < l.bets.len() implies l.by_txid[(
    #[trigger] l.bets[i]).txid] is Bet by {}
    assert forall|i: int| 0 <= i < l.transfers.len() implies l.by_txid[(
    #[trigger] l.transfers[i]).txid] is Transfer by {}
    assert forall|t: Text| #[trigger] after.by_txid.contains_key(t) implies found(
        after,
        t,
        after.by_txid[t],
    ) by {
        if t == deploy.txid {
            assert(after.deploys.last() == deploy);
        } else {
            assert(l.by_txid.contains_key(t));
            assert(found(l, t, l.by_txid[t]));
            if let EntryRef::Deploy { idx } = l.by_txid[t] {
                assert(after.deploys[idx - after.deploy_offset] == l.deploys[idx
                    - l.deploy_offset]);
            }
        }
    }
}

/// The logs stay under their caps and in step with the index by transaction.
pub proof fn law_logs_stay_linked(l: LedgerModel, tx: TxModel, payload: Option<PayloadModel>)
    requires
        logs_linked(l),
        numbers_left(l),
    ensures
        logs_linked(applied(l, tx, payload)),
{
    if active(tx) {
        let s = spend(l, tx);
        let e = tx_edict(l, tx, payload);
        assert(logs_linked(s));
        if payload is Some && !s.by_txid.contains_key(tx.txid) {
            match payload->0 {
                PayloadModel::Bet { tier, pick, ticker, win_out_idx, change_out_idx } => {
                    let mixed = mixes(drained(l, tx).pool);
                    let o = bet_outcome(s, tx, mixed, tier, pick, ticker, win_out_idx);
                    let m = LedgerModel {
                        tokens: minted_more(s.tokens, ticker, o.reward),
                        ..s
                    };
                    assert(logs_linked(m));
                    let bet = e.ledger.bets.last();
                    assert(e.ledger == log_bet(m, bet));
                    lemma_log_bet(m, bet);
                },
                PayloadModel::Xfer { .. } => {
                    let t = e.ledger.transfers.last();
                    assert(e.ledger == log_transfer(s, t));
                    lemma_log_transfer(s, t);
                },
                PayloadModel::Deploy { .. } => {
                    let m = LedgerModel { tokens: e.ledger.tokens, ..s };
                    assert(logs_linked(m));
                    let d = e.ledger.deploys.last();
                    assert(e.ledger == log_deploy(m, d));
                    lemma_log_deploy(m, d);
                },
            }
        }
        assert(logs_linked(e.ledger));
        let after = applied(l, tx, payload);
        assert(after == (LedgerModel { utxos: after.utxos, addrs: after.addrs, ..e.ledger }));
    }
}

/// The entry of a log that a logical index stands for.
pub open spec fn resolved<T>(log: Seq<T>, offset: u64, logical: u64) -> Option<T> {
    match physical(logical, offset, log.len()) {
        Some(i) => Some(log[i]),
        None => None,
    }
}

/// A log that `x` was added to under the number `idx` is within its cap, and `idx` stands
/// for `x`. Every older logical index stands for what it stood for, but that of the oldest
/// entry where the log was full.
pub open spec fn keeps_numbers<T>(
    log: Seq<T>,
    offset: u64,
    after: Seq<T>,
    after_offset: u64,
    cap: nat,
    x: T,
    idx: u64,
) -> bool {
    &&& after.len() <= cap
    &&& idx == offset + log.len()
    &&& resolved(after, after_offset, idx) == Some(x)
    &&& forall|logical: u64|
        logical != idx ==> #[trigger] resolved(after, after_offset, logical) == (if log.len() == cap
            && logical == offset {
            None
        } else {
            resolved(log, offset, logical)
        })
}

/// Adding to a log keeps the numbers of its entries.
pub proof fn law_log_keeps_its_numbers<T>(log: Seq<T>, cap: nat, offset: u64, x: T)
    requires
        0 < cap,
        log.len() <= cap,
        offset + log.len() < u64::MAX,
    ensures
        keeps_numbers(
            log,
            offset,
            logged(log, cap, x),
            sat((offset + evicted(log.len(), cap)) as nat),
            cap,
            x,
            logged_idx(log.len(), cap, offset),
        ),
{
    let n = evicted(log.len(), cap);
    let after = logged(log, cap, x);
    let after_offset = sat((offset + n) as nat);
    let idx = logged_idx(log.len(), cap, offset);
    assert(after_offset == offset + n);
    assert forall|logical: u64| logical != idx implies #[trigger] resolved(
        after,
        after_offset,
        logical,
    ) == (if log.len() == cap && logical == offset {
        None
    } else {
        resolved(log, offset, logical)
    }) by {
        if let Some(i) = physical(logical, after_offset, after.len()) {
            assert(after[i] == log[i + n]);
        }
    }
}

/// Logging a wager leaves the older ones where they were. Where the log is full the oldest
/// goes, and its transaction, no other, is forgotten.
pub proof fn law_logged_bet_evicts_the_oldest(l: LedgerModel, bet: BetModel)
    requires
        l.bets.len() <= MAX_BETS_VEC,
        l.bet_offset + l.bets.len() < u64::MAX,
    ensures
        ({
            let after = log_bet(l, bet);
            let idx = (l.bet_offset + l.bets.len()) as u64;
            let kept = if l.bets.len() == MAX_BETS_VEC {
                l.by_txid.remove(l.bets[0].txid)
            } else {
                l.by_txid
            };
            &&& keeps_numbers(
                l.bets,
                l.bet_offset,
                after.bets,
                after.bet_offset,
                MAX_BETS_VEC as nat,
                bet,
                idx,
            )
            &&& forgotten(
                l.by_txid,
                bet_txids(l.bets, evicted(l.bets.len(), MAX_BETS_VEC as nat)),
            ) == kept
            &&& after.by_txid == kept.insert(bet.txid, EntryRef::Bet { idx })
        }),
{
    let gone = bet_txids(l.bets, evicted(l.bets.len(), MAX_BETS_VEC as nat));
    law_log_keeps_its_numbers(l.bets, MAX_BETS_VEC as nat, l.bet_offset, bet);
    lemma_forget_first(l.by_txid, gone);
    if l.bets.len() == MAX_BETS_VEC {
        assert(gone[0] == l.bets[0].txid);
    }
}

/// Logging a transfer leaves the older ones where they were. Where the log is full the oldest
/// goes, and its transaction, no other, is forgotten.
pub proof fn law_logged_transfer_evicts_the_oldest(l: LedgerModel, transfer: TransferModel)
    requires
        l.transfers.len() <= MAX_TRANSFERS_VEC,
        l.transfer_offset + l.transfers.len() < u64::MAX,
    ensures
        ({
            let after = log_transfer(l, transfer);
            let idx = (l.transfer_offset + l.transfers.len()) as u64;
            let kept = if l.transfers.len() == MAX_TRANSFERS_VEC {
                l.by_txid.remove(l.transfers[0].txid)
            } else {
                l.by_txid
            };
            &&& keeps_numbers(
                l.transfers,
                l.transfer_offset,
                after.transfers,
                after.transfer_offset,
                MAX_TRANSFERS_VEC as nat,
                transfer,
                idx,
            )
            &&& forgotten(
                l.by_txid,
                transfer_txids(l.transfers, evicted(l.transfers.len(), MAX_TRANSFERS_VEC as nat)),
            ) == kept
            &&& after.by_txid == kept.insert(transfer.txid, EntryRef::Transfer { idx })
        }),
{
    let gone = transfer_txids(l.transfers, evicted(l.transfers.len(), MAX_TRANSFERS_VEC as nat));
    law_log_keeps_its_numbers(l.transfers, MAX_TRANSFERS_VEC as nat, l.transfer_offset, transfer);
    lemma_forget_first(l.by_txid, gone);
    if l.transfers.len() == MAX_TRANSFERS_VEC {
        assert(gone[0] == l.transfers[0].txid);
    }
}

/// Logging a deployment leaves the older ones where they were. Where the log is full the oldest
/// goes, and its transaction, no other, is forgotten.
pub proof fn law_logged_deploy_evicts_the_oldest(l: LedgerModel, deploy: DeployModel)
    requires
        l.deploys.len() <= MAX_DEPLOYS_VEC,
        l.deploy_offset + l.deploys.len() < u64::MAX,
    ensures
        ({
            let after = log_deploy(l, deploy);
            let idx = (l.deploy_offset + l.deploys.len()) as u64;
            let kept = if l.deploys.len() == MAX_DEPLOYS_VEC {
                l.by_txid.remove(l.deploys[0].txid)
            } else {
                l.by_txid
            };
            &&& keeps_numbers(
                l.deploys,
                l.deploy_offset,
                after.deploys,
                after.deploy_offset,
                MAX_DEPLOYS_VEC as nat,
                deploy,
                idx,
            )
            &&& forgotten(
                l.by_txid,
                deploy_txids(l.deploys, evicted(l.deploys.len(), MAX_DEPLOYS_VEC as nat)),
            ) == kept
            &&& after.by_txid == kept.insert(deploy.txid, EntryRef::Deploy { idx })
        }),
{
    let gone = deploy_txids(l.deploys, evicted(l.deploys.len(), MAX_DEPLOYS_VEC as nat));
    law_log_keeps_its_numbers(l.deploys, MAX_DEPLOYS_VEC as nat, l.deploy_offset, deploy);
    lemma_forget_first(l.by_txid, gone);
    if l.deploys.len() == MAX_DEPLOYS_VEC {
        assert(gone[0] == l.deploys[0].txid);
    }
}

/// A payload is logged under its transaction, where it is found again.
pub proof fn law_payload_is_found_again(l: LedgerModel, tx: TxModel, payload: PayloadModel)
    requires
        active(tx),
        logs_linked(l),
        numbers_left(l),
    ensures
        applied(l, tx, Some(payload)).by_txid.contains_key(tx.txid),
        found(
            applied(l, tx, Some(payload)),
            tx.txid,
            applied(l, tx, Some(payload)).by_txid[tx.txid],
        ),
{
    law_logs_stay_linked(l, tx, Some(payload));
}

// ---------------------------------------------------------------------------
// All of it together.
// ---------------------------------------------------------------------------

/// All that holds of every ledger that is reached.
pub open spec fn sound(l: LedgerModel) -> bool {
    backed(l) && carrying(l) && indexed(l.utxos, l.addrs) && logs_linked(l)
}

/// The empty ledger is sound.
pub proof fn law_empty_ledger_is_sound()
    ensures
        sound(empty_ledger()),
        numbers_left(empty_ledger()),
{
    let l = empty_ledger();
    assert forall|t: Text| #[trigger] total_of(l.utxos, t) <= minted_of(l.tokens, t) by {
        assert(l.utxos.dom() =~= Set::empty());
    }
    assert(l.utxos.dom() =~= Set::empty());
}

/// A transaction keeps a ledger sound.
pub proof fn law_soundness_is_kept(l: LedgerModel, tx: TxModel, payload: Option<PayloadModel>)
    requires
        sound(l),
        numbers_left(l),
        addresses_agree(l, tx),
        moves(payload),
    ensures
        sound(applied(l, tx, payload)),
{
    law_supply_is_capped(l, tx, payload);
    law_held_outputs_carry_tokens(l, tx, payload);
    law_address_index_in_step(l, tx, payload);
    law_logs_stay_linked(l, tx, payload);
}

// ---------------------------------------------------------------------------
// Snapshots.
// ---------------------------------------------------------------------------

/// Recovery goes back to the last snapshot that can be gone back to, and to none only
/// where there is none.
pub proof fn law_recovery_takes_the_latest(
    snaps: Seq<SnapshotModel>,
    cutoff: u32,
    canonical: Map<u32, Text>,
)
    ensures
        match last_restorable(snaps, cutoff, canonical) {
            Some(i) => {
                &&& 0 <= i < snaps.len()
                &&& restorable(snaps[i], cutoff, canonical)
                &&& forall|j: int|
                    i < j < snaps.len() ==> !restorable(#[trigger] snaps[j], cutoff, canonical)
            },
            None => forall|j: int|
                0 <= j < snaps.len() ==> !restorable(#[trigger] snaps[j], cutoff, canonical),
        },
    decreases snaps.len(),
{
    if snaps.len() > 0 && !restorable(snaps.last(), cutoff, canonical) {
        let front = snaps.drop_last();
        law_recovery_takes_the_latest(front, cutoff, canonical);
        match last_restorable(front, cutoff, canonical) {
            Some(i) => {
                assert forall|j: int| i < j < snaps.len() implies !restorable(
                    #[trigger] snaps[j],
                    cutoff,
                    canonical,
                ) by {
                    if j < front.len() {
                        assert(front[j] == snaps[j]);
                    }
                }
            },
            None => {
                assert forall|j: int| 0 <= j < snaps.len() implies !restorable(
                    #[trigger] snaps[j],
                    cutoff,
                    canonical,
                ) by {
                    if j < front.len() {
                        assert(front[j] == snaps[j]);
                    }
                }
            },
        }
    }
}

/// A snapshot gives back the ledger that it was taken of: recovery right after it, with
/// the block's hash still canonical, restores that ledger.
pub proof fn law_snapshot_gives_back_the_ledger(
    snaps: Seq<SnapshotModel>,
    version: u32,
    l: LedgerModel,
    cutoff: u32,
    canonical: Map<u32, Text>,
)
    requires
        l.height <= cutoff,
        l.block_hashes.contains_key(l.height),
        canonical.contains_key(l.height),
        canonical[l.height] == l.block_hashes[l.height],
    ensures
        ({
            let ring = ring_push(snaps, SNAPSHOT_RING_SIZE as nat, SnapshotModel { version, ledger: l });
            &&& last_restorable(ring, cutoff, canonical) == Some(ring.len() - 1)
            &&& ring[ring.len() - 1].ledger == l
        }),
{
}

/// The ring of snapshots and the list of diagnostics never outgrow their caps.
pub proof fn law_rings_stay_bounded<T>(s: Seq<T>, cap: nat, x: T)
    requires
        cap > 0,
        s.len() <= cap,
    ensures
        ring_push(s, cap, x).len() <= cap,
        ring_push(s, cap, x).last() == x,
{
}

// ---------------------------------------------------------------------------
// Secrets.
// ---------------------------------------------------------------------------

/// Masking a masked URL changes nothing.
pub proof fn law_masking_is_idempotent(url: Text)
    ensures
        masked(masked(url)) == masked(url),
{
    if contains_text(url, KEY_MARKER@) {
        let marker = KEY_MARKER@;
        let m = masked(url);
        lemma_marker_found(url);
        let i = choose|i: int| first_at(url, marker, i);
        let start = key_start(url);
        let rest = url.skip(start);
        lemma_key_found(rest);
        let k = key_len(rest);
        let rest2 = m.skip(start);
        assert(rest2 =~= KEY_REDACTED@ + rest.skip(k));
        assert(m.take(start) =~= url.take(start));
        assert(first_at(m, marker, i)) by {
            assert(m.subrange(i, i + marker.len()) =~= url.subrange(i, i + marker.len()));
            assert forall|j: int| 0 <= j < i implies !occurs_at(m, marker, j) by {
                assert(m.subrange(j, j + marker.len()) =~= url.subrange(j, j + marker.len()));
                assert(!occurs_at(url, marker, j));
            }
        }
        assert(contains_text(m, marker));
        lemma_first_at_unique(m, marker, i, choose|j: int| first_at(m, marker, j));
        assert(key_start(m) == start);
        reveal_strlit("<KEY-REDACTED>");
        assert(ends_key(rest2, KEY_REDACTED@.len() as int));
        lemma_ends_key_unique(rest2, KEY_REDACTED@.len() as int, key_len(rest2));
        assert(rest2.skip(key_len(rest2)) =~= rest.skip(k));
        assert(masked(m) =~= m);
    }
}

/// A URL without a key is left as it is; in one with a key only the key is replaced.
pub proof fn law_masking_replaces_the_key_alone(url: Text)
    ensures
        !contains_text(url, KEY_MARKER@) ==> masked(url) == url,
        contains_text(url, KEY_MARKER@) ==> {
            let start = key_start(url);
            let k = key_len(url.skip(start));
            &&& 0 <= start <= start + k <= url.len()
            &&& forall|j: int| start <= j < start + k ==> #[trigger] url[j] != '/'
            &&& start + k < url.len() ==> url[start + k] == '/'
            &&& masked(url) == url.take(start) + KEY_REDACTED@ + url.skip(start + k)
        },
{
    if contains_text(url, KEY_MARKER@) {
        lemma_marker_found(url);
        let start = key_start(url);
        let rest = url.skip(start);
        lemma_key_found(rest);
        let k = key_len(rest);
        assert forall|j: int| start <= j < start + k implies #[trigger] url[j] != '/' by {
            assert(rest[j - start] == url[j]);
        }
        assert(rest.skip(k) =~= url.skip(start + k));
    }
}

/// Where the marker stands in a URL, it has a first position.
proof fn lemma_marker_found(url: Text)
    requires
        contains_text(url, KEY_MARKER@),
    ensures
        first_at(url, KEY_MARKER@, choose|i: int| first_at(url, KEY_MARKER@, i)),
        0 <= key_start(url) <= url.len(),
{
    let i = choose|i: int| occurs_at(url, KEY_MARKER@, i);
    lemma_first_exists(url, KEY_MARKER@, i);
}

proof fn lemma_first_exists(s: Text, needle: Text, i: int)
    requires
        occurs_at(s, needle, i),
    ensures
        exists|j: int| first_at(s, needle, j),
    decreases i,
{
    if exists|j: int| 0 <= j < i && occurs_at(s, needle, j) {
        let j = choose|j: int| 0 <= j < i && occurs_at(s, needle, j);
        lemma_first_exists(s, needle, j);
    } else {
        assert(first_at(s, needle, i));
    }
}

/// Every text has a first slash, or ends without one.
proof fn lemma_key_found(rest: Text)
    ensures
        ends_key(rest, key_len(rest)),
    decreases rest.len(),
{
    lemma_key_end_exists(rest, 0);
}

proof fn lemma_key_end_exists(rest: Text, from: int)
    requires
        0 <= from <= rest.len(),
        forall|j: int| 0 <= j < from ==> rest[j] != '/',
    ensures
        exists|k: int| ends_key(rest, k),
    decreases rest.len() - from,
{
    if from == rest.len() || rest[from] == '/' {
        assert(ends_key(rest, from));
    } else {
        lemma_key_end_exists(rest, from + 1);
    }
}

// ---------------------------------------------------------------------------
// Payloads and wagers.
// ---------------------------------------------------------------------------

/// A payload that keeps the rules on tiers, picks, tickers, amounts and output indices.
pub open spec fn well_formed(p: PayloadModel) -> bool {
    match p {
        PayloadModel::Bet { tier, pick, ticker, win_out_idx, change_out_idx } => {
            &&& is_tier(tier)
            &&& pick_ok(tier, pick)
            &&& ticker_ok(ticker)
            &&& win_out_idx <= MAX_OUT_IDX
            &&& change_out_idx matches Some(c) ==> c <= MAX_OUT_IDX
        },
        PayloadModel::Xfer { ticker, amount, to_out_idx, change_out_idx } => {
            &&& ticker_ok(ticker)
            &&& 1 <= amount <= MAX_SEND_AMT
            &&& to_out_idx <= MAX_OUT_IDX
            &&& change_out_idx matches Some(c) ==> c <= MAX_OUT_IDX && c != to_out_idx
        },
        PayloadModel::Deploy { ticker } => ticker_ok(ticker),
    }
}

/// Whatever is decoded is within bounds: tickers are tickers, indices fit a byte, a
/// transfer moves between one unit and the whole supply, and its change does not go to
/// the recipient's output.
pub proof fn law_decoded_payloads_are_in_bounds(bytes: Seq<u8>)
    ensures
        payload_of(bytes) matches Some(p) ==> well_formed(p),
        moves(payload_of(bytes)),
{
}

/// A wager that is decoded is decided by any hash that ends in a hexadecimal digit, and
/// its tier has a reward.
pub proof fn law_decoded_wagers_are_decided(bytes: Seq<u8>, hash: Text)
    requires
        hash.len() > 0,
        hex_digit(hash.last()) is Some,
    ensures
        payload_of(bytes) matches Some(PayloadModel::Bet { tier, pick, .. }) ==> hit(
            tier,
            pick,
            hash,
        ) is Some && reward_of(tier) is Some,
{
    if let Some(PayloadModel::Bet { tier, pick, .. }) = payload_of(bytes) {
        lemma_picks_are_ascii(tier, pick);
    }
}

/// The fields that a payload is spelled with.
pub open spec fn spelled_fields(p: PayloadModel) -> Seq<Text> {
    match p {
        PayloadModel::Bet { tier, pick, ticker, win_out_idx, change_out_idx } => {
            let f = seq![PROTOCOL_PREFIX@, tier, pick, ticker, decimal(win_out_idx as nat)];
            match change_out_idx {
                Some(c) => f.push(decimal(c as nat)),
                None => f,
            }
        },
        PayloadModel::Xfer { ticker, amount, to_out_idx, change_out_idx } => {
            let f = seq![
                PROTOCOL_PREFIX@,
                "SEND"@,
                ticker,
                decimal(amount as nat),
                decimal(to_out_idx as nat),
            ];
            match change_out_idx {
                Some(c) => f.push(decimal(c as nat)),
                None => f,
            }
        },
        PayloadModel::Deploy { ticker } => seq![PROTOCOL_PREFIX@, "DEPLOY"@, ticker],
    }
}

/// The bytes that spell a payload: its fields with bars between them.
pub open spec fn spelled(p: PayloadModel) -> Seq<u8> {
    encode_utf8(joined(spelled_fields(p), '|'))
}

/// A payload is decoded only from the bytes that spell it.
pub proof fn law_decoded_bytes_spell_the_payload(bytes: Seq<u8>)
    ensures
        payload_of(bytes) matches Some(p) ==> bytes == spelled(p),
{
    if let Some(p) = payload_of(bytes) {
        let s = decode_utf8(bytes);
        let f = fields(s, '|');
        decode_utf8_encode_utf8(bytes);
        lemma_joined_fields(s, '|');
        match p {
            PayloadModel::Bet { change_out_idx, .. } => {
                lemma_canonical_is_decimal(f[4]);
                if change_out_idx is Some {
                    lemma_canonical_is_decimal(f[5]);
                }
            },
            PayloadModel::Xfer { change_out_idx, .. } => {
                lemma_canonical_is_decimal(f[3]);
                lemma_canonical_is_decimal(f[4]);
                if change_out_idx is Some {
                    lemma_canonical_is_decimal(f[5]);
                }
            },
            PayloadModel::Deploy { .. } => {},
        }
        assert(f =~= spelled_fields(p));
    }
}

/// A small number is spelled without a bar, in canonical form and in few digits.
proof fn lemma_spelled_number(n: nat)
    requires
        n <= MAX_SEND_AMT,
    ensures
        canonical_uint(decimal(n)),
        digits_value(decimal(n)) == n,
        decimal(n).len() <= 8,
        free_of(decimal(n), '|'),
{
    lemma_decimal_value(n);
    assert(decimal(n).len() <= 8 && (n < 10 ==> decimal(n).len() == 1)) by {
        reveal_with_fuel(decimal, 9);
    }
    assert forall|i: int| 0 <= i < decimal(n).len() implies #[trigger] decimal(n)[i] != '|' by {
        assert(is_digit(decimal(n)[i]));
    }
}

/// The fields of a well-formed payload hold no bar.
proof fn lemma_spelled_without_bars(p: PayloadModel)
    requires
        well_formed(p),
    ensures
        forall|i: int| 0 <= i < spelled_fields(p).len() ==> free_of(#[trigger] spelled_fields(p)[i], '|'),
{
    reveal_strlit("LUCKYPROTOCOL");
    reveal_strlit("SEND");
    reveal_strlit("DEPLOY");
    reveal_strlit("iron");
    reveal_strlit("bronze");
    reveal_strlit("silver");
    reveal_strlit("gold");
    reveal_strlit("odd");
    reveal_strlit("even");
    match p {
        PayloadModel::Bet { tier, pick, ticker, win_out_idx, change_out_idx } => {
            lemma_spelled_number(win_out_idx as nat);
            if let Some(c) = change_out_idx {
                lemma_spelled_number(c as nat);
            }
            assert forall|i: int| 0 <= i < pick.len() implies #[trigger] pick[i] != '|' by {
                if tier == "iron"@ {
                    let p = ascii_lower(pick);
                    assert(p =~= seq!['o', 'd', 'd'] || p =~= seq!['e', 'v', 'e', 'n']);
                    assert(p[i] == lower_char(pick[i]) && p[i] != '|');
                } else {
                    assert(hex_digit(pick[i]) is Some);
                }
            }
            assert forall|i: int| 0 <= i < ticker.len() implies #[trigger] ticker[i] != '|' by {
                assert(ticker_char(ticker[i]));
            }
        },
        PayloadModel::Xfer { ticker, amount, to_out_idx, change_out_idx } => {
            lemma_spelled_number(amount as nat);
            lemma_spelled_number(to_out_idx as nat);
            if let Some(c) = change_out_idx {
                lemma_spelled_number(c as nat);
            }
            assert forall|i: int| 0 <= i < ticker.len() implies #[trigger] ticker[i] != '|' by {
                assert(ticker_char(ticker[i]));
            }
        },
        PayloadModel::Deploy { ticker } => {
            assert forall|i: int| 0 <= i < ticker.len() implies #[trigger] ticker[i] != '|' by {
                assert(ticker_char(ticker[i]));
            }
        },
    }
}

/// The bytes that spell a well-formed payload decode to it.
pub proof fn law_spelled_payloads_are_decoded(p: PayloadModel)
    requires
        well_formed(p),
    ensures
        payload_of(spelled(p)) == Some(p),
{
    let f = spelled_fields(p);
    lemma_spelled_without_bars(p);
    lemma_fields_joined(f, '|');
    encode_utf8_valid_utf8(joined(f, '|'));
    encode_utf8_decode_utf8(joined(f, '|'));
    match p {
        PayloadModel::Bet { win_out_idx, change_out_idx, .. } => {
            lemma_spelled_number(win_out_idx as nat);
            if let Some(c) = change_out_idx {
                lemma_spelled_number(c as nat);
            }
        },
        PayloadModel::Xfer { amount, to_out_idx, change_out_idx, .. } => {
            lemma_spelled_number(amount as nat);
            lemma_spelled_number(to_out_idx as nat);
            if let Some(c) = change_out_idx {
                lemma_spelled_number(c as nat);
            }
        },
        PayloadModel::Deploy { .. } => {},
    }
    reveal_strlit("SEND");
    reveal_strlit("DEPLOY");
    reveal_strlit("iron");
    reveal_strlit("bronze");
    reveal_strlit("silver");
    reveal_strlit("gold");
    assert("SEND"@[0] != "iron"@[0] && "SEND"@[0] != "bronze"@[0] && "SEND"@[0] != "silver"@[0]
        && "SEND"@[0] != "gold"@[0]);
    assert("DEPLOY"@[0] != "iron"@[0] && "DEPLOY"@[0] != "bronze"@[0] && "DEPLOY"@[0]
        != "silver"@[0] && "DEPLOY"@[0] != "gold"@[0] && "DEPLOY"@[0] != "SEND"@[0]);
}

/// Different bytes never decode to the same payload.
pub proof fn law_payloads_have_one_spelling(a: Seq<u8>, b: Seq<u8>)
    requires
        payload_of(a) is Some,
        payload_of(a) == payload_of(b),
    ensures
        a == b,
{
    law_decoded_bytes_spell_the_payload(a);
    law_decoded_bytes_spell_the_payload(b);
}

/// On ASCII hashes a wager is decided by the settlement tail: the last characters of the
/// hash in lower case.
pub proof fn law_wagers_are_decided_by_the_tail(tier: Text, pick: Text, hash: Text)
    requires
        is_ascii_chars(hash),
        hash.len() > 0,
        is_tier(tier),
        tier != "iron"@,
        pick_ok(tier, pick),
    ensures
        hit(tier, pick, hash) == Some(ascii_lower(pick) == ascii_lower(tail_of(hash, pick.len()))),
{
    lemma_picks_are_ascii(tier, pick);
    reveal_strlit("bronze");
    reveal_strlit("silver");
    reveal_strlit("gold");
    assert("bronze"@[0] != "silver"@[0] && "bronze"@[0] != "gold"@[0] && "silver"@[0]
        != "gold"@[0]);
    assert(tail_of(ascii_lower(hash), pick.len()) =~= ascii_lower(tail_of(hash, pick.len())));
}

/// On the iron tier the last digit of the hash decides: `odd` wins where it is even, `even`
/// where it is odd, so that on any block exactly one of the two picks wins.
pub proof fn law_last_digit_decides_iron(odd: Text, even: Text, hash: Text, d: u32)
    requires
        ascii_lower(odd) == "odd"@,
        ascii_lower(even) == "even"@,
        hash.len() > 0,
        hex_digit(hash.last()) == Some(d),
    ensures
        hit("iron"@, odd, hash) == Some((d % 6 + 1) % 2 == 1),
        hit("iron"@, odd, hash) == Some(d % 2 == 0),
        hit("iron"@, even, hash) == Some(d % 2 == 1),
        hit("iron"@, even, hash) == Some(!hit("iron"@, odd, hash)->0),
{
    reveal_strlit("odd");
    reveal_strlit("even");
    assert("odd"@.len() != "even"@.len());
}

/// On the iron tier exactly one of the two picks wins.
pub proof fn law_odd_and_even_are_opposite(odd: Text, even: Text, hash: Text)
    requires
        ascii_lower(odd) == "odd"@,
        ascii_lower(even) == "even"@,
    ensures
        match hit("iron"@, odd, hash) {
            Some(won) => hit("iron"@, even, hash) == Some(!won),
            None => hit("iron"@, even, hash) is None,
        },
{
    reveal_strlit("odd");
    reveal_strlit("even");
    assert("odd"@.len() != "even"@.len());
}

} // verus!
