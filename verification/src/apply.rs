//! What one transaction does to the state.
use std::collections::VecDeque;
use vstd::prelude::*;

use crate::indexer::{
    merge_into, outpoint_key, BetStatus, BetView, DeployView, EntryRef, IndexerState, RuneBalance,
    TokenRegistryEntry, TransferView, TxContext, UtxoEntry, MAX_BETS_VEC, MAX_DEPLOYS_VEC,
    MAX_TRANSFERS_VEC,
};
use crate::protocol::{
    is_hit, tier_reward, ProtocolPayload, DEPLOY_PROTOCOL_FEE_SATS, LCKPROTOCOL_V1_HEIGHT,
    MINE_PROTOCOL_FEE_SATS, PROJECT_FEE_ADDRESS, REQUIRED_TOKEN_SUPPLY, SEND_PROTOCOL_FEE_SATS,
};
use crate::strmap::{StrMap, StrSet};
use crate::text::same_text;
use crate::views::copy_text;

verus! {

use crate::indexer::{outpoints_view, StateModel};
use crate::ledger::{
    address_of, applied, bet_edict, bet_outcome, bet_txids, capped_reward, commit, credited,
    deploy_edict, deploy_txids, drain, drain_one, entered, evicted, forgotten, logged, logged_idx,
    minted_more, mixes, outpoints_of, pays_fee, sat, send_edict, struck, taken, touches,
    transfer_txids, tx_edict, usable, usable_change, Balances, BetModel, DeployModel, Drained,
    LedgerModel, Text, TransferModel,
};
use crate::laws::{
    keeps_numbers, law_logged_bet_evicts_the_oldest, law_logged_deploy_evicts_the_oldest,
    law_logged_transfer_evicts_the_oldest,
};
use crate::protocol::payload_view;
use crate::strmap::lists_keys;
use crate::views::{lemma_views_push, lemma_views_subrange, view_option, views};

/// A state with another ledger.
pub open spec fn with_ledger(s: StateModel, l: LedgerModel) -> StateModel {
    StateModel { ledger: l, ..s }
}

/// A credit with its balances as a map.
pub open spec fn credit_view(c: Option<(u32, RuneBalance)>) -> Option<(u32, Balances)> {
    match c {
        Some((idx, b)) => Some((idx, b@)),
        None => None,
    }
}

// ---------------------------------------------------------------------------
// Reading a transaction.
// ---------------------------------------------------------------------------

impl IndexerState {
    /// Whether output `vout` is an `OP_RETURN`.
    fn is_op_return_vout(ctx: &TxContext, vout: u32) -> (r: bool)
        ensures
            r == ctx@.op_return_vouts.contains(vout),
    {
        let mut i: usize = 0;
        while i < ctx.op_return_vouts.len()
            invariant
                i <= ctx.op_return_vouts@.len(),
                forall|j: int| 0 <= j < i ==> ctx.op_return_vouts@[j] != vout,
            decreases ctx.op_return_vouts@.len() - i,
        {
            if ctx.op_return_vouts[i] == vout {
                return true;
            }
            i += 1;
        }
        false
    }

    /// Whether output `idx` exists and can hold tokens.
    pub fn validate_out_idx(ctx: &TxContext, idx: u32) -> (r: Option<u32>)
        ensures
            r == (if usable(ctx@, idx) {
                Some(idx)
            } else {
                None
            }),
    {
        if idx >= ctx.vout_count || Self::is_op_return_vout(ctx, idx) {
            None
        } else {
            Some(idx)
        }
    }

    fn usable_change(ctx: &TxContext, change: Option<u32>) -> (r: Option<u32>)
        ensures
            r == usable_change(ctx@, change),
    {
        match change {
            Some(c) => Self::validate_out_idx(ctx, c),
            None => None,
        }
    }

    /// Whether some output pays exactly `expected_sats` to the project.
    pub fn has_exact_project_fee(ctx: &TxContext, expected_sats: u64) -> (r: bool)
        ensures
            r == pays_fee(ctx@, expected_sats),
    {
        let mut i: usize = 0;
        while i < ctx.vout_values.len() && i < ctx.vout_addresses.len()
            invariant
                i <= ctx.vout_values@.len(),
                forall|j: int|
                    0 <= j < i && j < ctx@.vout_addresses.len() ==> !(ctx@.vout_values[j]
                        == expected_sats && ctx@.vout_addresses[j] == Some(PROJECT_FEE_ADDRESS@)),
            decreases ctx.vout_values@.len() - i,
        {
            if ctx.vout_values[i] == expected_sats {
                if let Some(a) = &ctx.vout_addresses[i] {
                    if same_text(a, PROJECT_FEE_ADDRESS) {
                        assert(ctx@.vout_values[i as int] == expected_sats);
                        return true;
                    }
                }
            }
            i += 1;
        }
        false
    }

    fn address_of_vout(ctx: &TxContext, idx: u32) -> (r: Option<String>)
        ensures
            view_option(r) == address_of(ctx@, idx),
    {
        if (idx as usize) < ctx.vout_addresses.len() {
            copy_text(&ctx.vout_addresses[idx as usize])
        } else {
            None
        }
    }

    /// The first usable output other than `exclude`, or else the first usable output.
    pub fn default_out_idx(ctx: &TxContext, exclude: Option<u32>) -> (r: Option<u32>)
        ensures
            match r {
                Some(v) => {
                    &&& usable(ctx@, v)
                    &&& exclude != Some(v) ==> forall|w: u32|
                        w < v && #[trigger] usable(ctx@, w) ==> exclude == Some(w)
                    &&& exclude == Some(v) ==> forall|w: u32| #[trigger] usable(ctx@, w) ==> w == v
                },
                None => forall|w: u32| !#[trigger] usable(ctx@, w),
            },
    {
        let mut v: u32 = 0;
        let mut fallback: Option<u32> = None;
        while v < ctx.vout_count
            invariant
                v <= ctx.vout_count,
                match fallback {
                    Some(f) => usable(ctx@, f) && exclude == Some(f),
                    None => true,
                },
                forall|w: u32| w < v && #[trigger] usable(ctx@, w) ==> fallback == Some(w),
            decreases ctx.vout_count - v,
        {
            if Self::validate_out_idx(ctx, v).is_some() {
                let excluded = match exclude {
                    Some(e) => e == v,
                    None => false,
                };
                if !excluded {
                    return Some(v);
                }
                fallback = Some(v);
            }
            v += 1;
        }
        fallback
    }
}

// ---------------------------------------------------------------------------
// The index of outpoints by address, and the inputs.
// ---------------------------------------------------------------------------

impl IndexerState {
    fn track_address_utxo(&mut self, address: &Option<String>, key: &str)
        ensures
            final(self)@ == with_ledger(
                old(self)@,
                (LedgerModel {
                    addrs: entered(old(self)@.ledger.addrs, view_option(*address), key@),
                    ..old(self)@.ledger
                }),
            ),
    {
        if let Some(a) = address {
            let ghost addrs = self.address_utxos@;
            let mut set = match self.address_utxos.remove(a) {
                Some(set) => set,
                None => StrSet::new(),
            };
            assert(set@ == outpoints_of(addrs, a@));
            set.insert(key.to_owned());
            self.address_utxos.insert(a.clone(), set);
            assert(self.address_utxos@ =~= entered(addrs, Some(a@), key@));
        }
    }

    fn untrack_address_utxo(&mut self, address: &Option<String>, key: &str)
        ensures
            final(self)@ == with_ledger(
                old(self)@,
                (LedgerModel {
                    addrs: struck(old(self)@.ledger.addrs, view_option(*address), key@),
                    ..old(self)@.ledger
                }),
            ),
    {
        if let Some(a) = address {
            let ghost addrs = self.address_utxos@;
            if let Some(mut set) = self.address_utxos.remove(a) {
                set.remove(key);
                if !set.is_empty() {
                    self.address_utxos.insert(a.clone(), set);
                }
            }
            assert(self.address_utxos@ =~= struck(addrs, Some(a@), key@));
        }
    }

    /// Takes the spent outputs out and hands back what they held.
    fn drain_inputs(&mut self, spent: &[(String, u32)]) -> (pool: RuneBalance)
        ensures
            ({
                let l = old(self)@.ledger;
                let d = drain(
                    Drained { utxos: l.utxos, addrs: l.addrs, pool: Map::empty() },
                    outpoints_view(spent@),
                );
                &&& final(self)@ == with_ledger(
                    old(self)@,
                    LedgerModel { utxos: d.utxos, addrs: d.addrs, ..l },
                )
                &&& pool@ == d.pool
            }),
    {
        let ghost start = self@;
        let ghost d0 = Drained {
            utxos: start.ledger.utxos,
            addrs: start.ledger.addrs,
            pool: Map::empty(),
        };
        let ghost all = outpoints_view(spent@);
        let mut pool: RuneBalance = StrMap::new();
        let mut i: usize = 0;
        assert(all.take(0) =~= Seq::empty());
        while i < spent.len()
            invariant
                i <= spent@.len(),
                all == outpoints_view(spent@),
                d0 == (Drained {
                    utxos: start.ledger.utxos,
                    addrs: start.ledger.addrs,
                    pool: Map::empty(),
                }),
                self@ == with_ledger(
                    start,
                    (LedgerModel {
                        utxos: drain(d0, all.take(i as int)).utxos,
                        addrs: drain(d0, all.take(i as int)).addrs,
                        ..start.ledger
                    }),
                ),
                pool@ == drain(d0, all.take(i as int)).pool,
            decreases spent@.len() - i,
        {
            let ghost before = drain(d0, all.take(i as int));
            proof {
                assert(all.take(i + 1).drop_last() =~= all.take(i as int));
                assert(all.take(i + 1).last() == all[i as int]);
            }
            let key = outpoint_key(&spent[i].0, spent[i].1);
            let ghost now = self@;
            match self.utxo_balances.remove(&key) {
                Some(entry) => {
                    self.untrack_address_utxo(&entry.address, &key);
                    merge_into(&mut pool, &entry.balances);
                    assert(self@ == with_ledger(
                        start,
                        (LedgerModel {
                            utxos: drain_one(before, key@).utxos,
                            addrs: drain_one(before, key@).addrs,
                            ..start.ledger
                        }),
                    ));
                },
                None => {
                    assert(self.utxo_balances@ =~= now.ledger.utxos);
                },
            }
            i += 1;
        }
        assert(all.take(spent@.len() as int) =~= all);
        pool
    }
}

// ---------------------------------------------------------------------------
// The logs.
// ---------------------------------------------------------------------------

/// Forgetting one more transaction.
proof fn lemma_forgotten_push(by_txid: Map<Text, EntryRef>, gone: Seq<Text>, txid: Text)
    ensures
        forgotten(by_txid, gone.push(txid)) == forgotten(by_txid, gone).remove(txid),
{
    let more = gone.push(txid);
    assert forall|t: Text| more.contains(t) <==> gone.contains(t) || t == txid by {
        if gone.contains(t) {
            let j = choose|j: int| 0 <= j < gone.len() && gone[j] == t;
            assert(more[j] == t);
        }
        if t == txid {
            assert(more[gone.len() as int] == t);
        }
        if more.contains(t) && t != txid {
            let j = choose|j: int| 0 <= j < more.len() && more[j] == t;
            assert(gone[j] == t);
        }
    }
    assert(forgotten(by_txid, more) =~= forgotten(by_txid, gone).remove(txid));
}

/// An entry of a log.
trait Logged: View + Sized {
    /// The transaction of an entry.
    spec fn txid_in(m: Self::V) -> Text;

    /// The transaction of the entry.
    fn logged_txid(&self) -> (r: &String)
        ensures
            r@ == Self::txid_in(self@),
    ;
}

impl Logged for BetView {
    closed spec fn txid_in(m: BetModel) -> Text {
        m.txid
    }

    fn logged_txid(&self) -> (r: &String) {
        &self.txid
    }
}

impl Logged for TransferView {
    closed spec fn txid_in(m: TransferModel) -> Text {
        m.txid
    }

    fn logged_txid(&self) -> (r: &String) {
        &self.txid
    }
}

impl Logged for DeployView {
    closed spec fn txid_in(m: DeployModel) -> Text {
        m.txid
    }

    fn logged_txid(&self) -> (r: &String) {
        &self.txid
    }
}

/// The transactions of a log's first `n` entries.
spec fn logged_txids<T: Logged>(log: Seq<T::V>, n: nat) -> Seq<Text> {
    log.take(n as int).map_values(|m: T::V| T::txid_in(m))
}

/// Adds an entry to a log of at most `cap`, forgets the transactions of the entries that
/// leave it, and returns the logical index of the new one.
fn push_logged<T: Logged>(
    log: &mut VecDeque<T>,
    by_txid: &mut StrMap<EntryRef>,
    offset: &mut u64,
    cap: usize,
    entry: T,
) -> (idx: u64)
    requires
        cap > 0,
    ensures
        ({
            let before = views(old(log)@);
            let n = evicted(before.len(), cap as nat);
            &&& idx == logged_idx(before.len(), cap as nat, *old(offset))
            &&& views(final(log)@) == logged(before, cap as nat, entry@)
            &&& final(by_txid)@ == forgotten(old(by_txid)@, logged_txids::<T>(before, n))
            &&& *final(offset) == sat((*old(offset) + n) as nat)
        }),
{
    let ghost start = log@;
    let ghost before = views(log@);
    let ghost index = by_txid@;
    let ghost first = *offset;
    let ghost mut n: nat = 0;
    proof {
        assert(logged_txids::<T>(before, 0) =~= Seq::empty());
        assert(forgotten(index, logged_txids::<T>(before, 0)) =~= index);
        assert(start.skip(0) =~= start);
    }
    while log.len() >= cap
        invariant
            cap > 0,
            before == views(start),
            n <= evicted(start.len(), cap as nat),
            log@ == start.skip(n as int),
            by_txid@ == forgotten(index, logged_txids::<T>(before, n)),
            *offset == sat((first + n) as nat),
        decreases log@.len(),
    {
        match log.pop_front() {
            Some(gone) => {
                by_txid.remove(gone.logged_txid());
                *offset = offset.saturating_add(1);
                proof {
                    let txid = T::txid_in(gone@);
                    assert(gone == start[n as int]);
                    assert(log@ =~= start.skip((n + 1) as int));
                    assert(logged_txids::<T>(before, n + 1) =~= logged_txids::<T>(
                        before,
                        n,
                    ).push(txid));
                    lemma_forgotten_push(index, logged_txids::<T>(before, n), txid);
                    n = n + 1;
                }
            },
            None => {},
        }
    }
    let idx: u64 = offset.saturating_add(log.len() as u64);
    proof {
        assert(n == evicted(start.len(), cap as nat));
        lemma_views_subrange(start, n as int, start.len() as int);
        lemma_views_push(start.skip(n as int), entry);
    }
    log.push_back(entry);
    idx
}

impl IndexerState {
    /// Adds a wager to the log and returns its logical index. Every older one keeps its own,
    /// but for the oldest of a full log: it leaves, and its transaction alone is forgotten.
    pub fn push_bet(&mut self, bet: BetView) -> (idx: u64)
        ensures
            ({
                let l = old(self)@.ledger;
                let n = evicted(l.bets.len(), MAX_BETS_VEC as nat);
                &&& idx == logged_idx(l.bets.len(), MAX_BETS_VEC as nat, l.bet_offset)
                &&& final(self)@ == with_ledger(
                    old(self)@,
                    LedgerModel {
                        bets: logged(l.bets, MAX_BETS_VEC as nat, bet@),
                        bet_offset: sat((l.bet_offset + n) as nat),
                        by_txid: forgotten(l.by_txid, bet_txids(l.bets, n)),
                        ..l
                    },
                )
            }),
            ({
                let l = old(self)@.ledger;
                let after = final(self)@.ledger;
                l.bets.len() <= MAX_BETS_VEC && l.bet_offset + l.bets.len() < u64::MAX ==> {
                    &&& keeps_numbers(
                        l.bets,
                        l.bet_offset,
                        after.bets,
                        after.bet_offset,
                        MAX_BETS_VEC as nat,
                        bet@,
                        idx,
                    )
                    &&& after.by_txid == (if l.bets.len() == MAX_BETS_VEC {
                        l.by_txid.remove(l.bets[0].txid)
                    } else {
                        l.by_txid
                    })
                }
            }),
    {
        let ghost l = self@.ledger;
        let idx: u64 = push_logged(
            &mut self.bets,
            &mut self.by_txid,
            &mut self.bet_offset,
            MAX_BETS_VEC,
            bet,
        );
        proof {
            let n = evicted(l.bets.len(), MAX_BETS_VEC as nat);
            assert(logged_txids::<BetView>(l.bets, n) =~= bet_txids(l.bets, n));
            if l.bets.len() <= MAX_BETS_VEC && l.bet_offset + l.bets.len() < u64::MAX {
                law_logged_bet_evicts_the_oldest(l, bet@);
            }
        }
        idx
    }

    /// Adds a transfer to the log and returns its logical index. Every older one keeps its own,
    /// but for the oldest of a full log: it leaves, and its transaction alone is forgotten.
    pub fn push_transfer(&mut self, transfer: TransferView) -> (idx: u64)
        ensures
            ({
                let l = old(self)@.ledger;
                let n = evicted(l.transfers.len(), MAX_TRANSFERS_VEC as nat);
                &&& idx == logged_idx(l.transfers.len(), MAX_TRANSFERS_VEC as nat, l.transfer_offset)
                &&& final(self)@ == with_ledger(
                    old(self)@,
                    LedgerModel {
                        transfers: logged(l.transfers, MAX_TRANSFERS_VEC as nat, transfer@),
                        transfer_offset: sat((l.transfer_offset + n) as nat),
                        by_txid: forgotten(l.by_txid, transfer_txids(l.transfers, n)),
                        ..l
                    },
                )
            }),
            ({
                let l = old(self)@.ledger;
                let after = final(self)@.ledger;
                l.transfers.len() <= MAX_TRANSFERS_VEC && l.transfer_offset + l.transfers.len() < u64::MAX ==> {
                    &&& keeps_numbers(
                        l.transfers,
                        l.transfer_offset,
                        after.transfers,
                        after.transfer_offset,
                        MAX_TRANSFERS_VEC as nat,
                        transfer@,
                        idx,
                    )
                    &&& after.by_txid == (if l.transfers.len() == MAX_TRANSFERS_VEC {
                        l.by_txid.remove(l.transfers[0].txid)
                    } else {
                        l.by_txid
                    })
                }
            }),
    {
        let ghost l = self@.ledger;
        let idx: u64 = push_logged(
            &mut self.transfers,
            &mut self.by_txid,
            &mut self.transfer_offset,
            MAX_TRANSFERS_VEC,
            transfer,
        );
        proof {
            let n = evicted(l.transfers.len(), MAX_TRANSFERS_VEC as nat);
            assert(logged_txids::<TransferView>(l.transfers, n) =~= transfer_txids(l.transfers, n));
            if l.transfers.len() <= MAX_TRANSFERS_VEC && l.transfer_offset + l.transfers.len() < u64::MAX {
                law_logged_transfer_evicts_the_oldest(l, transfer@);
            }
        }
        idx
    }

    /// Adds a deployment to the log and returns its logical index. Every older one keeps its own,
    /// but for the oldest of a full log: it leaves, and its transaction alone is forgotten.
    pub fn push_deploy(&mut self, deploy: DeployView) -> (idx: u64)
        ensures
            ({
                let l = old(self)@.ledger;
                let n = evicted(l.deploys.len(), MAX_DEPLOYS_VEC as nat);
                &&& idx == logged_idx(l.deploys.len(), MAX_DEPLOYS_VEC as nat, l.deploy_offset)
                &&& final(self)@ == with_ledger(
                    old(self)@,
                    LedgerModel {
                        deploys: logged(l.deploys, MAX_DEPLOYS_VEC as nat, deploy@),
                        deploy_offset: sat((l.deploy_offset + n) as nat),
                        by_txid: forgotten(l.by_txid, deploy_txids(l.deploys, n)),
                        ..l
                    },
                )
            }),
            ({
                let l = old(self)@.ledger;
                let after = final(self)@.ledger;
                l.deploys.len() <= MAX_DEPLOYS_VEC && l.deploy_offset + l.deploys.len() < u64::MAX ==> {
                    &&& keeps_numbers(
                        l.deploys,
                        l.deploy_offset,
                        after.deploys,
                        after.deploy_offset,
                        MAX_DEPLOYS_VEC as nat,
                        deploy@,
                        idx,
                    )
                    &&& after.by_txid == (if l.deploys.len() == MAX_DEPLOYS_VEC {
                        l.by_txid.remove(l.deploys[0].txid)
                    } else {
                        l.by_txid
                    })
                }
            }),
    {
        let ghost l = self@.ledger;
        let idx: u64 = push_logged(
            &mut self.deploys,
            &mut self.by_txid,
            &mut self.deploy_offset,
            MAX_DEPLOYS_VEC,
            deploy,
        );
        proof {
            let n = evicted(l.deploys.len(), MAX_DEPLOYS_VEC as nat);
            assert(logged_txids::<DeployView>(l.deploys, n) =~= deploy_txids(l.deploys, n));
            if l.deploys.len() <= MAX_DEPLOYS_VEC && l.deploy_offset + l.deploys.len() < u64::MAX {
                law_logged_deploy_evicts_the_oldest(l, deploy@);
            }
        }
        idx
    }
}

// ---------------------------------------------------------------------------
// The payload's edict.
// ---------------------------------------------------------------------------

/// A single balance.
fn single(ticker: &str, amount: u64) -> (r: RuneBalance)
    ensures
        r@ == Map::<Text, u64>::empty().insert(ticker@, amount),
{
    let mut b: RuneBalance = StrMap::new();
    b.insert(ticker.to_owned(), amount);
    b
}

impl IndexerState {
    /// Mints the reward of a hit, as far as the supply lasts, and returns it.
    fn mint(&mut self, tier: &str, ticker: &str) -> (reward: u64)
        requires
            old(self)@.ledger.tokens.contains_key(ticker@),
        ensures
            reward == capped_reward(old(self)@.ledger.tokens[ticker@], tier@),
            final(self)@ == with_ledger(
                old(self)@,
                (LedgerModel {
                    tokens: minted_more(old(self)@.ledger.tokens, ticker@, reward),
                    ..old(self)@.ledger
                }),
            ),
    {
        let raw: u64 = match tier_reward(tier) {
            Some(r) => r,
            None => 0,
        };
        let ghost tokens = self.tokens@;
        let mut reward: u64 = 0;
        if let Some(mut token) = self.tokens.remove(ticker) {
            let remaining: u64 = token.supply.saturating_sub(token.minted);
            reward = if raw < remaining {
                raw
            } else {
                remaining
            };
            token.minted = token.minted.saturating_add(reward);
            self.tokens.insert(ticker.to_owned(), token);
        }
        assert(self.tokens@ =~= minted_more(tokens, ticker@, reward));
        reward
    }

    /// Settles a wager and logs it. Returns the credit that it makes and the change
    /// output.
    fn apply_bet(
        &mut self,
        ctx: &TxContext,
        mixed: bool,
        tier: String,
        pick: String,
        ticker: String,
        win_out_idx: u32,
        change_out_idx: Option<u32>,
    ) -> (r: (Option<(u32, RuneBalance)>, Option<u32>))
        ensures
            ({
                let e = bet_edict(
                    old(self)@.ledger,
                    ctx@,
                    Map::empty(),
                    mixed,
                    tier@,
                    pick@,
                    ticker@,
                    win_out_idx,
                    change_out_idx,
                );
                &&& final(self)@ == with_ledger(old(self)@, e.ledger)
                &&& credit_view(r.0) == e.credit
                &&& r.1 == e.change
            }),
    {
        let ghost l = self@.ledger;
        let ghost o = bet_outcome(l, ctx@, mixed, tier@, pick@, ticker@, win_out_idx);
        let counts = !mixed && self.tokens.contains_key(&ticker) && Self::validate_out_idx(
            ctx,
            win_out_idx,
        ).is_some() && Self::has_exact_project_fee(ctx, MINE_PROTOCOL_FEE_SATS);
        let mut status = BetStatus::Invalid;
        let mut win: Option<bool> = None;
        let mut reward: u64 = 0;
        let mut cap_exhausted = false;
        if counts {
            status = BetStatus::Settled;
            let predicate_hit = match is_hit(&tier, &pick, ctx.block_hash) {
                Some(b) => b,
                None => false,
            };
            if predicate_hit {
                reward = self.mint(&tier, &ticker);
                cap_exhausted = reward == 0;
            }
            win = Some(reward > 0);
        }
        assert(o.status == status && o.win == win && o.reward == reward && o.cap_exhausted
            == cap_exhausted);
        let credit: Option<(u32, RuneBalance)> = if reward > 0 {
            Some((win_out_idx, single(&ticker, reward)))
        } else {
            None
        };
        let change = Self::usable_change(ctx, change_out_idx);
        let bet = BetView {
            txid: ctx.txid.to_owned(),
            block_height: ctx.block_height,
            block_hash: ctx.block_hash.to_owned(),
            sender: ctx.sender.to_owned(),
            tier,
            pick,
            ticker,
            win_out_idx,
            change_out_idx,
            status,
            reveal_block_height: None,
            reveal_block_hash: None,
            win,
            reward_smallest: reward,
            cap_exhausted,
        };
        let idx: u64 = self.push_bet(bet);
        self.by_txid.insert(ctx.txid.to_owned(), EntryRef::Bet { idx });
        (credit, change)
    }

    /// Moves the amount of a transfer out of the pool, where it goes through, and logs
    /// it. Returns the credit that it makes and the change output.
    fn apply_send(
        &mut self,
        ctx: &TxContext,
        pool: &mut RuneBalance,
        mixed: bool,
        ticker: String,
        amount: u64,
        to_out_idx: u32,
        change_out_idx: Option<u32>,
    ) -> (r: (Option<(u32, RuneBalance)>, Option<u32>))
        ensures
            ({
                let e = send_edict(
                    old(self)@.ledger,
                    ctx@,
                    old(pool)@,
                    mixed,
                    ticker@,
                    amount,
                    to_out_idx,
                    change_out_idx,
                );
                &&& final(self)@ == with_ledger(old(self)@, e.ledger)
                &&& credit_view(r.0) == e.credit
                &&& r.1 == e.change
                &&& final(pool)@ == e.pool
            }),
    {
        let ghost pool0 = pool@;
        let pool_amt: u64 = match pool.get(&ticker) {
            Some(a) => *a,
            None => 0,
        };
        let applied = !mixed && Self::validate_out_idx(ctx, to_out_idx).is_some() && pool_amt >= amount
            && Self::has_exact_project_fee(ctx, SEND_PROTOCOL_FEE_SATS);
        let credit: Option<(u32, RuneBalance)> = if applied {
            if let Some(held) = pool.remove(&ticker) {
                let rest: u64 = held.saturating_sub(amount);
                if rest > 0 {
                    pool.insert(ticker.clone(), rest);
                }
            }
            assert(pool@ =~= taken(pool0, ticker@, amount));
            Some((to_out_idx, single(&ticker, amount)))
        } else {
            None
        };
        let change = Self::usable_change(ctx, change_out_idx);
        let transfer = TransferView {
            txid: ctx.txid.to_owned(),
            block_height: ctx.block_height,
            block_hash: ctx.block_hash.to_owned(),
            sender: ctx.sender.to_owned(),
            ticker,
            amount,
            to_out_idx,
            change_out_idx,
            applied,
        };
        let idx: u64 = self.push_transfer(transfer);
        self.by_txid.insert(ctx.txid.to_owned(), EntryRef::Transfer { idx });
        (credit, change)
    }

    /// Registers the ticker of a deployment, where it goes through, and logs it.
    fn apply_deploy(&mut self, ctx: &TxContext, mixed: bool, ticker: String)
        ensures
            final(self)@ == with_ledger(
                old(self)@,
                deploy_edict(old(self)@.ledger, ctx@, Map::empty(), mixed, ticker@).ledger,
            ),
    {
        let applied = !mixed && !self.tokens.contains_key(&ticker) && Self::has_exact_project_fee(
            ctx,
            DEPLOY_PROTOCOL_FEE_SATS,
        );
        if applied {
            let token = TokenRegistryEntry {
                ticker: ticker.clone(),
                supply: REQUIRED_TOKEN_SUPPLY,
                minted: 0,
                deployer: ctx.sender.to_owned(),
                deploy_txid: ctx.txid.to_owned(),
                deploy_block: ctx.block_height,
            };
            self.tokens.insert(ticker.clone(), token);
        }
        let deploy = DeployView {
            txid: ctx.txid.to_owned(),
            block_height: ctx.block_height,
            block_hash: ctx.block_hash.to_owned(),
            deployer: ctx.sender.to_owned(),
            ticker,
            supply: REQUIRED_TOKEN_SUPPLY,
            applied,
        };
        let idx: u64 = self.push_deploy(deploy);
        self.by_txid.insert(ctx.txid.to_owned(), EntryRef::Deploy { idx });
    }

    /// Puts `balance` on output `idx` of the transaction.
    fn commit_output(&mut self, ctx: &TxContext, idx: u32, balance: &RuneBalance)
        ensures
            final(self)@ == with_ledger(
                old(self)@,
                commit(old(self)@.ledger, ctx@, idx, balance@),
            ),
    {
        let ghost l = self@.ledger;
        let key = outpoint_key(ctx.txid, idx);
        let address = Self::address_of_vout(ctx, idx);
        self.track_address_utxo(&address, &key);
        let mut entry = match self.utxo_balances.remove(&key) {
            Some(e) => e,
            None => UtxoEntry { address: None, balances: StrMap::new() },
        };
        if entry.address.is_none() {
            entry.address = address;
        }
        merge_into(&mut entry.balances, balance);
        self.utxo_balances.insert(key, entry);
        assert(self.utxo_balances@ =~= commit(l, ctx@, idx, balance@).utxos);
    }

    /// Applies a transaction: drains the outputs that it spends, carries out its payload
    /// and routes what is left. Returns whether tokens were released or a log grew. Below
    /// the activation height nothing happens.
    pub fn apply_tx(&mut self, ctx: TxContext, payload: Option<ProtocolPayload>) -> (changed: bool)
        ensures
            final(self)@ == with_ledger(
                old(self)@,
                applied(old(self)@.ledger, ctx@, payload_view(payload)),
            ),
            changed == touches(old(self)@.ledger, ctx@, payload_view(payload)),
    {
        if ctx.block_height < LCKPROTOCOL_V1_HEIGHT {
            return false;
        }
        let ghost tx = ctx@;
        let ghost start = self@;
        let ghost p = payload_view(payload);
        let mut pool = self.drain_inputs(ctx.spent_outpoints);
        let ghost released_pool = pool@;
        let released = !pool.is_empty();
        let tickers: usize = pool.len();
        let mixed = tickers > 1;
        proof {
            lemma_mixes(pool.keys(), pool@);
        }
        if mixed {
            pool.clear();
        }
        let recorded = payload.is_some() && !self.by_txid.contains_key(ctx.txid);
        let mut credit: Option<(u32, RuneBalance)> = None;
        let mut change: Option<u32> = None;
        if recorded {
            match payload {
                Some(ProtocolPayload::Bet { tier, pick, ticker, win_out_idx, change_out_idx }) => {
                    let r = self.apply_bet(
                        &ctx,
                        mixed,
                        tier,
                        pick,
                        ticker,
                        win_out_idx,
                        change_out_idx,
                    );
                    credit = r.0;
                    change = r.1;
                },
                Some(ProtocolPayload::Xfer { ticker, amount, to_out_idx, change_out_idx }) => {
                    let r = self.apply_send(
                        &ctx,
                        &mut pool,
                        mixed,
                        ticker,
                        amount,
                        to_out_idx,
                        change_out_idx,
                    );
                    credit = r.0;
                    change = r.1;
                },
                Some(ProtocolPayload::Deploy { ticker }) => {
                    self.apply_deploy(&ctx, mixed, ticker);
                },
                None => {},
            }
        }
        let ghost e = tx_edict(start.ledger, tx, p);
        proof {
            assert(self@ == with_ledger(start, e.ledger));
            assert(credit_view(credit) == e.credit);
            assert(change == e.change);
            assert(pool@ == e.pool);
        }
        if let Some((idx, balance)) = credit {
            self.commit_output(&ctx, idx, &balance);
        }
        assert(self@ == with_ledger(start, credited(e, tx)));
        if let Some(idx) = change {
            if !pool.is_empty() {
                self.commit_output(&ctx, idx, &pool);
            }
        }
        released || recorded
    }
}

/// A pool mixes tickers where it has more than one.
proof fn lemma_mixes(keys: Seq<Text>, pool: Balances)
    requires
        lists_keys(keys, pool),
    ensures
        mixes(pool) == (keys.len() > 1),
{
    if keys.len() > 1 {
        assert(pool.contains_key(keys[0]) && pool.contains_key(keys[1]));
        assert(keys[0] != keys[1]);
    }
    if mixes(pool) {
        let (a, b) = choose|a: Text, b: Text| #[trigger]
            pool.contains_key(a) && #[trigger] pool.contains_key(b) && a != b;
        assert(keys.contains(a) && keys.contains(b));
    }
}

} // verus!
