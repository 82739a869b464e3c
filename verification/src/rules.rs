//! The rules of the protocol, each stated over a transaction and the ledgers before and
//! after it.
use vstd::prelude::*;

verus! {

use crate::indexer::{total_of, BetStatus};
use crate::laws::{
    amount_at, backed, law_conservation, law_outpoint_keys_are_distinct, lemma_commit_amount,
    lemma_drain_frame,
};
use crate::ledger::{
    amount_in, applied, credited, drain, drained, mixes, outpoint, pays_fee, sat, tx_edict, usable,
    BetModel, DeployModel, Drained, LedgerModel, Text, TokenModel, TransferModel, TxModel,
    UtxoModel,
};
use crate::protocol::{hit, PayloadModel, PROJECT_FEE_ADDRESS};
use crate::sums::{lemma_sum_insert, sum_over};

// ---------------------------------------------------------------------------
// What a transaction brings.
// ---------------------------------------------------------------------------

/// The output exists and carries no data.
pub open spec fn takes_tokens(tx: TxModel, v: u32) -> bool {
    v < tx.vout_count && !tx.op_return_vouts.contains(v)
}

/// Some output pays exactly `sats` to the project.
pub open spec fn paid(tx: TxModel, sats: u64) -> bool {
    exists|i: int|
        0 <= i < tx.vout_values.len() && i < tx.vout_addresses.len() && #[trigger] tx.vout_values[i]
            == sats && tx.vout_addresses[i] == Some(PROJECT_FEE_ADDRESS@)
}

/// Some entry of `spent` names the output with this key.
pub open spec fn names(spent: Seq<(Text, u32)>, key: Text) -> bool {
    exists|i: int| 0 <= i < spent.len() && key == outpoint((#[trigger] spent[i]).0, spent[i].1)
}

/// What the outputs that `spent` names hold of a ticker together, each counted once.
pub open spec fn held_by_spent(
    utxos: Map<Text, UtxoModel>,
    spent: Seq<(Text, u32)>,
    ticker: Text,
) -> nat {
    sum_over(
        utxos.dom().filter(|k: Text| names(spent, k)),
        |k: Text| amount_in(utxos[k].balances, ticker) as nat,
    )
}

/// Some output that `spent` names has an entry for the ticker.
pub open spec fn listed_by_spent(
    utxos: Map<Text, UtxoModel>,
    spent: Seq<(Text, u32)>,
    ticker: Text,
) -> bool {
    exists|k: Text| #[trigger]
        utxos.contains_key(k) && names(spent, k) && utxos[k].balances.contains_key(ticker)
}

/// What the inputs of a transaction hold of a ticker together.
pub open spec fn brought(l: LedgerModel, tx: TxModel, ticker: Text) -> nat {
    held_by_spent(l.utxos, tx.spent, ticker)
}

/// The inputs of a transaction hold more than one ticker.
pub open spec fn brings_two(l: LedgerModel, tx: TxModel) -> bool {
    exists|a: Text, b: Text| #[trigger]
        listed_by_spent(l.utxos, tx.spent, a) && #[trigger] listed_by_spent(l.utxos, tx.spent, b)
            && a != b
}

/// What an output holds of a ticker once the inputs are spent.
pub open spec fn kept(l: LedgerModel, tx: TxModel, v: u32, ticker: Text) -> nat {
    let key = outpoint(tx.txid, v);
    if names(tx.spent, key) {
        0
    } else {
        amount_at(l.utxos, key, ticker) as nat
    }
}

/// What the change output gets of a ticker: all that the inputs hold of it and `sent`
/// does not take, where they hold one ticker only.
pub open spec fn change_share(
    l: LedgerModel,
    tx: TxModel,
    change: Option<u32>,
    v: u32,
    ticker: Text,
    sent: u64,
) -> nat {
    if change == Some(v) && takes_tokens(tx, v) && !brings_two(l, tx) {
        (sat(brought(l, tx, ticker)) - sent) as nat
    } else {
        0
    }
}

proof fn lemma_names_last(spent: Seq<(Text, u32)>, key: Text)
    requires
        spent.len() > 0,
    ensures
        names(spent, key) <==> names(spent.drop_last(), key) || key == outpoint(
            spent.last().0,
            spent.last().1,
        ),
{
    let front = spent.drop_last();
    if names(front, key) {
        let i = choose|i: int|
            0 <= i < front.len() && key == outpoint((#[trigger] front[i]).0, front[i].1);
        assert(spent[i] == front[i]);
    }
    if key == outpoint(spent.last().0, spent.last().1) {
        assert(spent[spent.len() - 1] == spent.last());
    }
    if names(spent, key) {
        let i = choose|i: int|
            0 <= i < spent.len() && key == outpoint((#[trigger] spent[i]).0, spent[i].1);
        if i < front.len() {
            assert(front[i] == spent[i]);
        }
    }
}

/// The pool holds what the named outputs hold.
proof fn lemma_drained_amount(
    utxos: Map<Text, UtxoModel>,
    addrs: Map<Text, Set<Text>>,
    spent: Seq<(Text, u32)>,
    ticker: Text,
)
    requires
        utxos.dom().finite(),
    ensures
        ({
            let pool = drain(Drained { utxos, addrs, pool: Map::empty() }, spent).pool;
            &&& amount_in(pool, ticker) == sat(held_by_spent(utxos, spent, ticker))
            &&& pool.contains_key(ticker) <==> listed_by_spent(utxos, spent, ticker)
        }),
    decreases spent.len(),
{
    let d = Drained { utxos, addrs, pool: Map::empty() };
    let f = |k: Text| amount_in(utxos[k].balances, ticker) as nat;
    let all = utxos.dom().filter(|k: Text| names(spent, k));
    if spent.len() == 0 {
        assert(all =~= Set::empty());
    } else {
        let front = spent.drop_last();
        let key = outpoint(spent.last().0, spent.last().1);
        let some = utxos.dom().filter(|k: Text| names(front, k));
        lemma_drained_amount(utxos, addrs, front, ticker);
        lemma_drain_frame(d, front, key);
        assert forall|k: Text| names(spent, k) == (names(front, k) || k == key) by {
            lemma_names_last(spent, k);
        }
        let before = drain(d, front);
        if before.utxos.contains_key(key) {
            assert(!names(front, key));
            assert(all =~= some.insert(key));
            lemma_sum_insert(some, f, key);
            if listed_by_spent(utxos, front, ticker) {
                let k = choose|k: Text| #[trigger]
                    utxos.contains_key(k) && names(front, k) && utxos[k].balances.contains_key(
                        ticker,
                    );
                assert(utxos.contains_key(k) && names(spent, k));
            }
            if listed_by_spent(utxos, spent, ticker) {
                let k = choose|k: Text| #[trigger]
                    utxos.contains_key(k) && names(spent, k) && utxos[k].balances.contains_key(
                        ticker,
                    );
                if k != key {
                    assert(names(front, k));
                }
            }
        } else {
            assert(all =~= some);
            if listed_by_spent(utxos, front, ticker) {
                let k = choose|k: Text| #[trigger]
                    utxos.contains_key(k) && names(front, k) && utxos[k].balances.contains_key(
                        ticker,
                    );
                assert(utxos.contains_key(k) && names(spent, k));
            }
            if listed_by_spent(utxos, spent, ticker) {
                let k = choose|k: Text| #[trigger]
                    utxos.contains_key(k) && names(spent, k) && utxos[k].balances.contains_key(
                        ticker,
                    );
                assert(names(front, k));
            }
        }
    }
}

/// The inputs of a transaction release all that they hold, each counted once, and the
/// pool mixes tickers where two of them are listed on the inputs.
pub proof fn law_inputs_release_what_they_hold(l: LedgerModel, tx: TxModel, ticker: Text)
    requires
        l.utxos.dom().finite(),
    ensures
        amount_in(drained(l, tx).pool, ticker) == sat(brought(l, tx, ticker)),
        drained(l, tx).pool.contains_key(ticker) <==> listed_by_spent(l.utxos, tx.spent, ticker),
        mixes(drained(l, tx).pool) <==> brings_two(l, tx),
{
    let pool = drained(l, tx).pool;
    assert forall|t: Text| #[trigger]
        pool.contains_key(t) == listed_by_spent(l.utxos, tx.spent, t) by {
        lemma_drained_amount(l.utxos, l.addrs, tx.spent, t);
    }
    lemma_drained_amount(l.utxos, l.addrs, tx.spent, ticker);
    if mixes(pool) {
        let (a, b) = choose|a: Text, b: Text| #[trigger]
            pool.contains_key(a) && #[trigger] pool.contains_key(b) && a != b;
        assert(listed_by_spent(l.utxos, tx.spent, a) && listed_by_spent(l.utxos, tx.spent, b));
    }
    if brings_two(l, tx) {
        let (a, b) = choose|a: Text, b: Text| #[trigger]
            listed_by_spent(l.utxos, tx.spent, a) && #[trigger] listed_by_spent(
                l.utxos,
                tx.spent,
                b,
            ) && a != b;
        assert(pool.contains_key(a) && pool.contains_key(b));
    }
}

/// An amount on two outputs: what a credit puts there and what the pool does.
proof fn lemma_routed_amount(l: LedgerModel, tx: TxModel, payload: Option<PayloadModel>, v: u32, ticker: Text)
    requires
        tx.block_height >= 950_950,
    ensures
        ({
            let e = tx_edict(l, tx, payload);
            let got = if let Some((idx, b)) = e.credit {
                if idx == v {
                    amount_in(b, ticker)
                } else {
                    0u64
                }
            } else {
                0u64
            };
            let left = if e.change == Some(v) {
                amount_in(e.pool, ticker)
            } else {
                0u64
            };
            amount_at(applied(l, tx, payload).utxos, outpoint(tx.txid, v), ticker) == sat(
                (kept(l, tx, v, ticker) + got + left) as nat,
            )
        }),
{
    let e = tx_edict(l, tx, payload);
    let key = outpoint(tx.txid, v);
    lemma_drain_frame(
        Drained { utxos: l.utxos, addrs: l.addrs, pool: Map::empty() },
        tx.spent,
        key,
    );
    assert(e.ledger.utxos == drained(l, tx).utxos);
    assert(amount_at(e.ledger.utxos, key, ticker) == kept(l, tx, v, ticker));
    if let Some((idx, b)) = e.credit {
        lemma_commit_amount(e.ledger, tx, idx, b, v, ticker);
    }
    if let Some(c) = e.change {
        lemma_commit_amount(credited(e, tx), tx, c, e.pool, v, ticker);
    }
}

// ---------------------------------------------------------------------------
// Wagers.
// ---------------------------------------------------------------------------

/// The full reward of a tier.
pub open spec fn full_reward(tier: Text) -> u64 {
    if tier == "iron"@ {
        100
    } else if tier == "bronze"@ {
        1_000
    } else if tier == "silver"@ {
        10_000
    } else if tier == "gold"@ {
        200_000
    } else {
        0
    }
}

/// A wager that names an undeployed ticker or an output that takes no tokens, that pays no
/// fee or whose inputs hold two tickers is void, one that does not hit loses, and one that
/// hits mints the reward of its tier to the output that it names, as far as the supply
/// lasts. The inputs' tokens go to the change output whichever way it comes out, and
/// nothing else changes hands. The log says how it came out.
pub proof fn law_wager(
    l: LedgerModel,
    tx: TxModel,
    tier: Text,
    pick: Text,
    ticker: Text,
    win: u32,
    change: Option<u32>,
    v: u32,
    other: Text,
)
    requires
        tx.block_height >= 950_950,
        l.utxos.dom().finite(),
        !l.by_txid.contains_key(tx.txid),
    ensures
        ({
            let payload = PayloadModel::Bet {
                tier,
                pick,
                ticker,
                win_out_idx: win,
                change_out_idx: change,
            };
            let after = applied(l, tx, Some(payload));
            let counts = l.tokens.contains_key(ticker) && takes_tokens(tx, win) && paid(tx, 546)
                && !brings_two(l, tx);
            let wins = counts && hit(tier, pick, tx.block_hash) == Some(true);
            let token = l.tokens[ticker];
            let unminted = if token.minted < token.supply {
                token.supply - token.minted
            } else {
                0
            };
            let due = if !wins {
                0
            } else if full_reward(tier) < unminted {
                full_reward(tier) as int
            } else {
                unminted
            };
            &&& amount_at(after.utxos, outpoint(tx.txid, v), other) == sat(
                (kept(l, tx, v, other) + (if v == win && other == ticker {
                    due
                } else {
                    0
                }) + change_share(l, tx, change, v, other, 0)) as nat,
            )
            &&& after.tokens == (if due > 0 {
                l.tokens.insert(
                    ticker,
                    TokenModel { minted: (token.minted + due) as u64, ..token },
                )
            } else {
                l.tokens
            })
            &&& after.bets.len() > 0
            &&& after.bets.last() == BetModel {
                txid: tx.txid,
                block_height: tx.block_height,
                block_hash: tx.block_hash,
                sender: tx.sender,
                tier,
                pick,
                ticker,
                win_out_idx: win,
                change_out_idx: change,
                status: if counts {
                    BetStatus::Settled
                } else {
                    BetStatus::Invalid
                },
                reveal_block_height: None,
                reveal_block_hash: None,
                win: if counts {
                    Some(due > 0)
                } else {
                    None
                },
                reward_smallest: due as u64,
                cap_exhausted: wins && due == 0,
            }
            &&& after.transfers == l.transfers
            &&& after.deploys == l.deploys
        }),
{
    let payload = PayloadModel::Bet { tier, pick, ticker, win_out_idx: win, change_out_idx: change };
    let e = tx_edict(l, tx, Some(payload));
    law_inputs_release_what_they_hold(l, tx, other);
    lemma_routed_amount(l, tx, Some(payload), v, other);
    assert(pays_fee(tx, 546) == paid(tx, 546));
    assert(usable(tx, win) == takes_tokens(tx, win));
    reveal_strlit("iron");
    reveal_strlit("bronze");
    reveal_strlit("silver");
    reveal_strlit("gold");
}

/// A wager that counts and does not hit mints nothing: the registry stays as it is, no
/// output gains anything but the residual pool on the change output, and the log has it
/// settled and lost, without a reward.
pub proof fn law_miss_pays_nothing(
    l: LedgerModel,
    tx: TxModel,
    tier: Text,
    pick: Text,
    ticker: Text,
    win: u32,
    change: Option<u32>,
    v: u32,
    other: Text,
)
    requires
        tx.block_height >= 950_950,
        l.utxos.dom().finite(),
        !l.by_txid.contains_key(tx.txid),
        l.tokens.contains_key(ticker),
        takes_tokens(tx, win),
        paid(tx, 546),
        !brings_two(l, tx),
        hit(tier, pick, tx.block_hash) != Some(true),
    ensures
        ({
            let payload = PayloadModel::Bet {
                tier,
                pick,
                ticker,
                win_out_idx: win,
                change_out_idx: change,
            };
            let after = applied(l, tx, Some(payload));
            &&& after.tokens == l.tokens
            &&& change != Some(v) ==> amount_at(after.utxos, outpoint(tx.txid, v), other) == kept(
                l,
                tx,
                v,
                other,
            )
            &&& change == Some(v) && takes_tokens(tx, v) ==> amount_at(
                after.utxos,
                outpoint(tx.txid, v),
                other,
            ) == sat(kept(l, tx, v, other) + brought(l, tx, other))
            &&& after.bets.last().txid == tx.txid
            &&& after.bets.last().status == BetStatus::Settled
            &&& after.bets.last().win == Some(false)
            &&& after.bets.last().reward_smallest == 0
            &&& !after.bets.last().cap_exhausted
        }),
{
    law_wager(l, tx, tier, pick, ticker, win, change, v, other);
}

// ---------------------------------------------------------------------------
// Transfers.
// ---------------------------------------------------------------------------

/// A transfer goes through where its output takes tokens, the inputs hold the amount and
/// no second ticker, and the fee is paid. The recipient output then gains the amount; the
/// change output, if it takes tokens, gains the rest; no other output gains anything. A
/// transfer that does not go through leaves all to the change output. The log says which.
pub proof fn law_transfer(
    l: LedgerModel,
    tx: TxModel,
    ticker: Text,
    amount: u64,
    to: u32,
    change: Option<u32>,
    v: u32,
    other: Text,
)
    requires
        tx.block_height >= 950_950,
        l.utxos.dom().finite(),
        !l.by_txid.contains_key(tx.txid),
    ensures
        ({
            let payload = PayloadModel::Xfer {
                ticker,
                amount,
                to_out_idx: to,
                change_out_idx: change,
            };
            let after = applied(l, tx, Some(payload));
            let goes = takes_tokens(tx, to) && brought(l, tx, ticker) >= amount && paid(tx, 546)
                && !brings_two(l, tx);
            let sent = if goes && other == ticker {
                amount
            } else {
                0u64
            };
            &&& amount_at(after.utxos, outpoint(tx.txid, v), other) == sat(
                (kept(l, tx, v, other) + (if v == to {
                    sent
                } else {
                    0u64
                }) + change_share(l, tx, change, v, other, sent)) as nat,
            )
            &&& after.tokens == l.tokens
            &&& after.transfers.len() > 0
            &&& after.transfers.last() == TransferModel {
                txid: tx.txid,
                block_height: tx.block_height,
                block_hash: tx.block_hash,
                sender: tx.sender,
                ticker,
                amount,
                to_out_idx: to,
                change_out_idx: change,
                applied: goes,
            }
            &&& after.bets == l.bets
            &&& after.deploys == l.deploys
        }),
{
    let payload = PayloadModel::Xfer { ticker, amount, to_out_idx: to, change_out_idx: change };
    let e = tx_edict(l, tx, Some(payload));
    law_inputs_release_what_they_hold(l, tx, other);
    law_inputs_release_what_they_hold(l, tx, ticker);
    lemma_routed_amount(l, tx, Some(payload), v, other);
    assert(pays_fee(tx, 546) == paid(tx, 546));
    assert(usable(tx, to) == takes_tokens(tx, to));
}

/// A transfer that goes through gives the recipient output the amount whatever is named
/// for the change: an output, one that takes no tokens, or none. What is burned of the
/// ticker is what the inputs hold beyond the amount, and only without a change output
/// that takes tokens.
pub proof fn law_transfer_needs_no_change(
    l: LedgerModel,
    tx: TxModel,
    ticker: Text,
    amount: u64,
    to: u32,
    change: Option<u32>,
)
    requires
        tx.block_height >= 950_950,
        backed(l),
        !l.by_txid.contains_key(tx.txid),
        takes_tokens(tx, to),
        brought(l, tx, ticker) >= amount,
        paid(tx, 546),
        !brings_two(l, tx),
    ensures
        ({
            let payload = PayloadModel::Xfer {
                ticker,
                amount,
                to_out_idx: to,
                change_out_idx: change,
            };
            let after = applied(l, tx, Some(payload));
            let changed = change matches Some(c) && takes_tokens(tx, c);
            &&& change != Some(to) ==> amount_at(after.utxos, outpoint(tx.txid, to), ticker) == sat(
                kept(l, tx, to, ticker) + amount as nat,
            )
            &&& change == Some(to) ==> amount_at(after.utxos, outpoint(tx.txid, to), ticker) == sat(
                kept(l, tx, to, ticker) + brought(l, tx, ticker),
            )
            &&& after.transfers.last().txid == tx.txid
            &&& after.transfers.last().applied
            &&& total_of(after.utxos, ticker) == total_of(l.utxos, ticker) - (if changed {
                0
            } else {
                sat(brought(l, tx, ticker)) - amount
            })
        }),
{
    let payload = PayloadModel::Xfer { ticker, amount, to_out_idx: to, change_out_idx: change };
    law_transfer(l, tx, ticker, amount, to, change, to, ticker);
    law_inputs_release_what_they_hold(l, tx, ticker);
    law_conservation(l, tx, Some(payload), ticker);
    assert(pays_fee(tx, 546) == paid(tx, 546));
    assert(usable(tx, to) == takes_tokens(tx, to));
    let e = tx_edict(l, tx, Some(payload));
    assert(amount_in(e.pool, ticker) == sat(brought(l, tx, ticker)) - amount);
}

// ---------------------------------------------------------------------------
// Deployments.
// ---------------------------------------------------------------------------

/// A deployment registers its ticker, with a supply of 21 million of which nothing is
/// minted, where the ticker is free, the fee is paid and the inputs hold at most one
/// ticker; otherwise the registry stays as it is. Nothing is put on any output. The log
/// says which.
pub proof fn law_deployment(l: LedgerModel, tx: TxModel, ticker: Text, v: u32, other: Text)
    requires
        tx.block_height >= 950_950,
        l.utxos.dom().finite(),
        !l.by_txid.contains_key(tx.txid),
    ensures
        ({
            let after = applied(l, tx, Some(PayloadModel::Deploy { ticker }));
            let goes = !l.tokens.contains_key(ticker) && paid(tx, 5_460) && !brings_two(l, tx);
            &&& after.tokens == (if goes {
                l.tokens.insert(
                    ticker,
                    TokenModel {
                        ticker,
                        supply: 21_000_000,
                        minted: 0,
                        deployer: tx.sender,
                        deploy_txid: tx.txid,
                        deploy_block: tx.block_height,
                    },
                )
            } else {
                l.tokens
            })
            &&& amount_at(after.utxos, outpoint(tx.txid, v), other) == kept(l, tx, v, other)
            &&& after.deploys.len() > 0
            &&& after.deploys.last() == DeployModel {
                txid: tx.txid,
                block_height: tx.block_height,
                block_hash: tx.block_hash,
                deployer: tx.sender,
                ticker,
                supply: 21_000_000,
                applied: goes,
            }
            &&& after.bets == l.bets
            &&& after.transfers == l.transfers
        }),
{
    let payload = PayloadModel::Deploy { ticker };
    law_inputs_release_what_they_hold(l, tx, other);
    lemma_routed_amount(l, tx, Some(payload), v, other);
    assert(pays_fee(tx, 5_460) == paid(tx, 5_460));
}

// ---------------------------------------------------------------------------
// Everything else.
// ---------------------------------------------------------------------------

/// A transaction without a payload, or one that is logged already, spends its inputs and
/// does nothing else: no output gains anything, and registry and logs stay as they are.
pub proof fn law_without_payload_only_spends(
    l: LedgerModel,
    tx: TxModel,
    payload: Option<PayloadModel>,
    v: u32,
    ticker: Text,
)
    requires
        tx.block_height >= 950_950,
        payload is None || l.by_txid.contains_key(tx.txid),
    ensures
        ({
            let after = applied(l, tx, payload);
            &&& amount_at(after.utxos, outpoint(tx.txid, v), ticker) == kept(l, tx, v, ticker)
            &&& after.tokens == l.tokens
            &&& after.bets == l.bets
            &&& after.transfers == l.transfers
            &&& after.deploys == l.deploys
            &&& after.by_txid == l.by_txid
        }),
{
    lemma_routed_amount(l, tx, payload, v, ticker);
}

/// No transaction in a block below the activation height changes anything, and none
/// changes the height or the recorded block hashes.
pub proof fn law_transactions_leave_the_height(
    l: LedgerModel,
    tx: TxModel,
    payload: Option<PayloadModel>,
)
    ensures
        tx.block_height < 950_950 ==> applied(l, tx, payload) == l,
        applied(l, tx, payload).height == l.height,
        applied(l, tx, payload).block_hashes == l.block_hashes,
{
}

/// An output that a transaction creates belongs to the address that the transaction pays
/// there, and is found under it.
pub proof fn law_created_output_belongs_to_its_address(
    l: LedgerModel,
    tx: TxModel,
    payload: Option<PayloadModel>,
    v: u32,
)
    requires
        tx.block_height >= 950_950,
        !l.utxos.contains_key(outpoint(tx.txid, v)),
        applied(l, tx, payload).utxos.contains_key(outpoint(tx.txid, v)),
    ensures
        ({
            let after = applied(l, tx, payload);
            let key = outpoint(tx.txid, v);
            &&& takes_tokens(tx, v)
            &&& v < tx.vout_addresses.len() ==> after.utxos[key].address
                == tx.vout_addresses[v as int]
            &&& v >= tx.vout_addresses.len() ==> after.utxos[key].address is None
            &&& after.utxos[key].address matches Some(a) ==> after.addrs.contains_key(a)
                && after.addrs[a].contains(key)
        }),
{
    let key = outpoint(tx.txid, v);
    let e = tx_edict(l, tx, payload);
    lemma_drain_frame(
        Drained { utxos: l.utxos, addrs: l.addrs, pool: Map::empty() },
        tx.spent,
        key,
    );
    assert(e.ledger.utxos == drained(l, tx).utxos);
    if let Some((idx, b)) = e.credit {
        if key == outpoint(tx.txid, idx) {
            law_outpoint_keys_are_distinct(tx.txid, v, tx.txid, idx);
        }
    }
    if let Some(idx) = e.change {
        if key == outpoint(tx.txid, idx) {
            law_outpoint_keys_are_distinct(tx.txid, v, tx.txid, idx);
        }
    }
}

/// An output that has an address and is not spent stays, and keeps its address.
pub proof fn law_held_output_keeps_its_address(
    l: LedgerModel,
    tx: TxModel,
    payload: Option<PayloadModel>,
    key: Text,
)
    requires
        l.utxos.contains_key(key),
        l.utxos[key].address is Some,
        !names(tx.spent, key),
    ensures
        applied(l, tx, payload).utxos.contains_key(key),
        applied(l, tx, payload).utxos[key].address == l.utxos[key].address,
{
    if tx.block_height >= 950_950 {
        lemma_drain_frame(
            Drained { utxos: l.utxos, addrs: l.addrs, pool: Map::empty() },
            tx.spent,
            key,
        );
        assert(tx_edict(l, tx, payload).ledger.utxos == drained(l, tx).utxos);
    }
}

} // verus!
