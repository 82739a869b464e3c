//! What taking a block in does, and what comparing with the chain finds.
use vstd::prelude::*;

verus! {

use crate::chain::{
    after_block, after_fetch, after_ingest, answered, block_applied, block_touched, block_verdict,
    divergence, probes_of, recorded, snapshot_verdict, spent_of, tx_model,
};
use crate::grammar::{carries_data, law_data_outputs_are_listed, lemma_same_letters, same_letters};
use crate::hashing::{hash_bytes, merkle_root_of};
use crate::indexer::{ring_push, settled_ledger, BetStatus, ErrorKind, StateModel};
use crate::laws::law_only_own_outputs_change;
use crate::ledger::{applied, outpoint, sat, touches, usable, BetModel, LedgerModel, Text};
use crate::protocol::hit;
use crate::rules::takes_tokens;
use crate::source::{
    block_txs, contributes, contribution, first_input, input_address, is_sender, lemma_first_exists,
    merkle_verdict, outranks, payload_of_tx, sender_of, starts_at, txid_hashes, BlockData,
    EsploraTxFull, TxFullModel, VinModel,
};
use crate::views::views;

// ---------------------------------------------------------------------------
// Inputs.
// ---------------------------------------------------------------------------

/// Every input that names a transaction spends the output that it names, whatever the
/// output's index, and nothing else is spent.
pub proof fn law_every_named_input_is_spent(vins: Seq<VinModel>, o: (Text, u32))
    ensures
        spent_of(vins).contains(o) <==> exists|i: int|
            0 <= i < vins.len() && (#[trigger] vins[i]).txid.len() > 0 && o == (
                vins[i].txid,
                vins[i].vout,
            ),
    decreases vins.len(),
{
    let named = exists|i: int|
        0 <= i < vins.len() && (#[trigger] vins[i]).txid.len() > 0 && o == (
            vins[i].txid,
            vins[i].vout,
        );
    if vins.len() > 0 {
        let front = vins.drop_last();
        let n = front.len() as int;
        law_every_named_input_is_spent(front, o);
        let less = spent_of(front);
        let all = spent_of(vins);
        assert(vins[n] == vins.last());
        if all.contains(o) {
            let k = choose|k: int| 0 <= k < all.len() && all[k] == o;
            if k < less.len() {
                assert(less[k] == o);
                assert(less.contains(o));
                let i = choose|i: int|
                    0 <= i < front.len() && (#[trigger] front[i]).txid.len() > 0 && o == (
                        front[i].txid,
                        front[i].vout,
                    );
                assert(vins[i] == front[i]);
            }
            assert(named);
        }
        if named {
            let i = choose|i: int|
                0 <= i < vins.len() && (#[trigger] vins[i]).txid.len() > 0 && o == (
                    vins[i].txid,
                    vins[i].vout,
                );
            if i < n {
                assert(front[i] == vins[i]);
                let k = choose|k: int| 0 <= k < less.len() && less[k] == o;
                assert(all[k] == o);
            } else {
                assert(all[less.len() as int] == o);
            }
        }
    }
}

/// After a transaction in an active block no output that it spends is left, but for one
/// that it creates itself.
pub proof fn law_spent_outputs_are_gone(l: LedgerModel, tx: TxFullModel, h: u32, hash: Text, i: int)
    requires
        h >= 950_950,
        0 <= i < tx.vin.len(),
        tx.vin[i].txid.len() > 0,
        forall|v: u32|
            takes_tokens(tx_model(tx, h, hash), v) ==> #[trigger] outpoint(tx.txid, v) != outpoint(
                tx.vin[i].txid,
                tx.vin[i].vout,
            ),
    ensures
        !applied(l, tx_model(tx, h, hash), payload_of_tx(tx)).utxos.contains_key(
            outpoint(tx.vin[i].txid, tx.vin[i].vout),
        ),
{
    let m = tx_model(tx, h, hash);
    let o = (tx.vin[i].txid, tx.vin[i].vout);
    let key = outpoint(o.0, o.1);
    law_every_named_input_is_spent(tx.vin, o);
    let k = choose|k: int| 0 <= k < m.spent.len() && m.spent[k] == o;
    assert(key == outpoint(m.spent[k].0, m.spent[k].1));
    assert forall|v: u32| #[trigger] usable(m, v) implies key != outpoint(m.txid, v) by {
        assert(takes_tokens(m, v));
    }
    law_only_own_outputs_change(l, m, payload_of_tx(tx), key);
}

/// The ledger reads a transaction as it stands in its block: its id, the block's height
/// and hash, and of each output its address and value and whether it carries data.
pub proof fn law_transactions_are_read_as_they_stand(
    tx: TxFullModel,
    h: u32,
    hash: Text,
    v: u32,
)
    requires
        tx.vout.len() <= u32::MAX,
    ensures
        ({
            let m = tx_model(tx, h, hash);
            &&& m.txid == tx.txid
            &&& m.block_height == h
            &&& m.block_hash == hash
            &&& m.vout_count == tx.vout.len()
            &&& m.vout_addresses.len() == tx.vout.len()
            &&& m.vout_values.len() == tx.vout.len()
            &&& v < tx.vout.len() ==> m.vout_addresses[v as int] == tx.vout[v as int].address
            &&& v < tx.vout.len() ==> m.vout_values[v as int] == tx.vout[v as int].value
            &&& takes_tokens(m, v) <==> v < tx.vout.len() && !carries_data(tx.vout[v as int])
        }),
{
    law_data_outputs_are_listed(tx.vout, v);
}

// ---------------------------------------------------------------------------
// The sender.
// ---------------------------------------------------------------------------

/// What inputs from an address are worth adds up, input by input.
pub proof fn law_contributions_add_up(a: Seq<VinModel>, b: Seq<VinModel>, v: VinModel, address: Text)
    ensures
        contribution(Seq::empty(), address) == 0,
        contribution(a + b, address) == contribution(a, address) + contribution(b, address),
        v.prevout matches Some(p) && p.address == Some(address) ==> contribution(seq![v], address)
            == v.prevout->0.value,
        !(v.prevout matches Some(p) && p.address == Some(address)) ==> contribution(
            seq![v],
            address,
        ) == 0,
    decreases b.len(),
{
    assert(seq![v].drop_last() =~= Seq::empty());
    assert(seq![v].last() == v);
    assert(contribution(Seq::<VinModel>::empty(), address) == 0);
    if b.len() == 0 {
        assert(a + b =~= a);
    } else {
        law_contributions_add_up(a, b.drop_last(), v, address);
        assert((a + b).drop_last() =~= a + b.drop_last());
        assert((a + b).last() == b.last());
    }
}

/// Among the first `n` inputs with an address one address outranks the others.
proof fn lemma_some_address_leads(vins: Seq<VinModel>, n: int) -> (lead: Text)
    requires
        0 < n <= vins.len(),
        exists|i: int| 0 <= i < n && input_address(#[trigger] vins[i]) is Some,
    ensures
        contributes(vins, lead),
        forall|i: int|
            0 <= i < n && input_address(#[trigger] vins[i]) is Some ==> outranks(
                vins,
                lead,
                input_address(vins[i])->0,
            ),
    decreases n,
{
    let here = input_address(vins[n - 1]);
    if exists|i: int| 0 <= i < n - 1 && input_address(#[trigger] vins[i]) is Some {
        let best = lemma_some_address_leads(vins, n - 1);
        match here {
            Some(a) if !outranks(vins, best, a) => {
                assert(contributes(vins, a));
                a
            },
            _ => best,
        }
    } else {
        let a = here->0;
        assert(contributes(vins, a));
        a
    }
}

/// The sender is the address whose inputs are worth the most, and among equals the one
/// with the earliest input. Without any address there is none.
pub proof fn law_sender_puts_in_the_most(vins: Seq<VinModel>, j: int)
    requires
        0 <= j < vins.len(),
        input_address(vins[j]) is Some,
    ensures
        ({
            let s = sender_of(vins);
            let other = input_address(vins[j])->0;
            let most = sat(contribution(vins, s));
            let less = sat(contribution(vins, other));
            &&& exists|i: int| 0 <= i < vins.len() && input_address(#[trigger] vins[i]) == Some(s)
            &&& most >= less
            &&& most == less ==> exists|i: int|
                0 <= i <= j && input_address(#[trigger] vins[i]) == Some(s)
        }),
{
    let lead = lemma_some_address_leads(vins, vins.len() as int);
    assert(is_sender(vins, lead)) by {
        assert forall|b: Text| #[trigger] contributes(vins, b) implies outranks(vins, lead, b) by {
            let i = choose|i: int|
                0 <= i < vins.len() && input_address(#[trigger] vins[i]) == Some(b);
            assert(input_address(vins[i]) is Some);
        }
    }
    let s = sender_of(vins);
    let other = input_address(vins[j])->0;
    assert(is_sender(vins, s));
    assert(contributes(vins, other));
    assert(outranks(vins, s, other));
    lemma_first_exists(vins, s);
    lemma_first_exists(vins, other);
    assert(starts_at(vins, s, first_input(vins, s)));
    assert(starts_at(vins, other, first_input(vins, other)));
    if first_input(vins, other) > j {
        assert(input_address(vins[j]) != Some(other));
    }
}

/// A transaction none of whose inputs has an address has no sender.
pub proof fn law_no_address_no_sender(vins: Seq<VinModel>)
    requires
        forall|i: int| 0 <= i < vins.len() ==> input_address(#[trigger] vins[i]) is None,
    ensures
        sender_of(vins).len() == 0,
{
    assert forall|a: Text| !is_sender(vins, a) by {
        assert(!contributes(vins, a));
    }
}

/// The address of an input is that of the output that it spends.
pub proof fn law_input_address(v: VinModel, a: Text)
    ensures
        input_address(v) == Some(a) <==> v.prevout is Some && v.prevout->0.address == Some(a),
{
}

// ---------------------------------------------------------------------------
// Blocks.
// ---------------------------------------------------------------------------

/// A block's transactions are applied one after the other: a block in two parts is the
/// second part applied to what the first leads to, and one transaction does what it does
/// alone.
pub proof fn law_blocks_apply_in_order(
    l: LedgerModel,
    a: Seq<TxFullModel>,
    b: Seq<TxFullModel>,
    tx: TxFullModel,
    h: u32,
    hash: Text,
)
    ensures
        block_applied(l, Seq::empty(), h, hash) == l,
        block_applied(l, seq![tx], h, hash) == applied(l, tx_model(tx, h, hash), payload_of_tx(tx)),
        block_applied(l, a + b, h, hash) == block_applied(block_applied(l, a, h, hash), b, h, hash),
        block_touched(l, Seq::empty(), h, hash) == 0,
        block_touched(l, seq![tx], h, hash) == (if touches(
            l,
            tx_model(tx, h, hash),
            payload_of_tx(tx),
        ) {
            1nat
        } else {
            0
        }),
        block_touched(l, a + b, h, hash) == block_touched(l, a, h, hash) + block_touched(
            block_applied(l, a, h, hash),
            b,
            h,
            hash,
        ),
    decreases b.len(),
{
    let none = Seq::<TxFullModel>::empty();
    assert(seq![tx].drop_last() =~= none);
    assert(seq![tx].last() == tx);
    assert(block_applied(l, none, h, hash) == l);
    assert(block_touched(l, none, h, hash) == 0);
    if b.len() == 0 {
        assert(a + b =~= a);
    } else {
        law_blocks_apply_in_order(l, a, b.drop_last(), tx, h, hash);
        assert((a + b).drop_last() =~= a + b.drop_last());
        assert((a + b).last() == b.last());
    }
}

/// The pages of a block are read one after the other, each whole.
pub proof fn law_pages_are_read_in_order(
    a: Seq<(usize, Vec<EsploraTxFull>)>,
    b: Seq<(usize, Vec<EsploraTxFull>)>,
    page: (usize, Vec<EsploraTxFull>),
)
    ensures
        block_txs(Seq::empty()) == Seq::<TxFullModel>::empty(),
        block_txs(seq![page]) == views(page.1@),
        block_txs(a + b) == block_txs(a) + block_txs(b),
    decreases b.len(),
{
    let none = Seq::<(usize, Vec<EsploraTxFull>)>::empty();
    assert(seq![page].drop_last() =~= none);
    assert(seq![page].last() == page);
    assert(block_txs(none) == Seq::<TxFullModel>::empty());
    assert(block_txs(seq![page]) =~= views(page.1@));
    if b.len() == 0 {
        assert(a + b =~= a);
        assert(block_txs(a) + block_txs(b) =~= block_txs(a));
    } else {
        law_pages_are_read_in_order(a, b.drop_last(), page);
        assert((a + b).drop_last() =~= a + b.drop_last());
        assert((a + b).last() == b.last());
        assert(block_txs(a + b) =~= block_txs(a) + block_txs(b));
    }
}

/// A block leads to what its transactions lead to, with its height and hash on record. Of
/// the hashes, those of the last two hundred heights are kept and older ones go.
pub proof fn law_block_leads_where_its_transactions_do(
    l: LedgerModel,
    txs: Seq<TxFullModel>,
    h: u32,
    hash: Text,
    g: u32,
)
    ensures
        ({
            let after = after_block(l, txs, h, hash);
            let done = block_applied(settled_ledger(l), txs, h, hash);
            &&& after.height == h
            &&& after.utxos == done.utxos
            &&& after.addrs == done.addrs
            &&& after.tokens == done.tokens
            &&& after.bets == done.bets
            &&& after.transfers == done.transfers
            &&& after.deploys == done.deploys
            &&& after.by_txid == done.by_txid
            &&& after.block_hashes.contains_key(h) && after.block_hashes[h] == hash
            &&& g + 200 < h ==> !after.block_hashes.contains_key(g)
            &&& g + 200 >= h && g != h ==> after.block_hashes.contains_key(g)
                == l.block_hashes.contains_key(g)
            &&& g != h && after.block_hashes.contains_key(g) ==> after.block_hashes[g]
                == l.block_hashes[g]
        }),
{
    lemma_hashes_stay(settled_ledger(l), txs, h, hash);
}

proof fn lemma_hashes_stay(l: LedgerModel, txs: Seq<TxFullModel>, h: u32, hash: Text)
    ensures
        block_applied(l, txs, h, hash).block_hashes == l.block_hashes,
    decreases txs.len(),
{
    if txs.len() > 0 {
        lemma_hashes_stay(l, txs.drop_last(), h, hash);
    }
}

/// Before a block, wagers that an old snapshot left open are settled by the hash of their
/// own block and without a reward. Every other wager, and all else, stays as it is.
pub proof fn law_open_wagers_are_settled(l: LedgerModel, i: int)
    requires
        0 <= i < l.bets.len(),
    ensures
        ({
            let after = settled_ledger(l);
            let b = l.bets[i];
            let a = after.bets[i];
            &&& after == LedgerModel { bets: after.bets, ..l }
            &&& after.bets.len() == l.bets.len()
            &&& b.status != BetStatus::LegacyPending ==> a == b
            &&& b.status == BetStatus::LegacyPending ==> a.status == BetStatus::Settled
                && a.reward_smallest == 0 && (a.win == Some(true) <==> hit(
                b.tier,
                b.pick,
                b.block_hash,
            ) == Some(true)) && a.win is Some
            &&& a == BetModel {
                status: a.status,
                win: a.win,
                reward_smallest: a.reward_smallest,
                reveal_block_height: a.reveal_block_height,
                reveal_block_hash: a.reveal_block_hash,
                ..b
            }
        }),
{
}

/// A block that is taken in is the ledger's last and counts as progress. After every
/// twelfth height the state is kept as the ring's last snapshot; between them the ring
/// stays as it is. Nothing else changes.
pub proof fn law_block_is_taken_in(s: StateModel, h: u32, b: BlockData, now: u64)
    ensures
        ({
            let after = after_ingest(s, h, b, now);
            &&& after.ledger == after_block(s.ledger, block_txs(b.pages@), h, b.block_hash@)
            &&& after.last_progress_at == now
            &&& h % 12 == 0 ==> after.snapshots.len() > 0 && after.snapshots.last().ledger
                == after.ledger && after.snapshots.last().version == 10
            &&& h % 12 != 0 ==> after.snapshots == s.snapshots
            &&& after.tip_height == s.tip_height
            &&& after.network == s.network
            &&& after.esplora_base == s.esplora_base
            &&& after.recent_errors == s.recent_errors
        }),
{
}

/// A block that could not be had changes nothing. One whose transactions are not those of
/// its header leaves one event and changes nothing else.
pub proof fn law_bad_blocks_change_nothing(s: StateModel, h: u32, b: BlockData, now: u64)
    ensures
        after_fetch(s, h, None, now) == s,
        block_verdict(b) is Err ==> ({
            let after = after_fetch(s, h, Some(b), now);
            &&& after.ledger == s.ledger
            &&& after.snapshots == s.snapshots
            &&& after.last_progress_at == s.last_progress_at
            &&& after.tip_height == s.tip_height
            &&& after.recent_errors.len() > 0
            &&& after.recent_errors.last().kind == ErrorKind::Merkle
            &&& after.recent_errors.last().height == Some(h)
            &&& after.recent_errors.last().at == now
        }),
        block_verdict(b) is Ok ==> after_fetch(s, h, Some(b), now).ledger == after_block(
            s.ledger,
            block_txs(b.pages@),
            h,
            b.block_hash@,
        ),
{
}

/// A block is accepted where there are transactions, their ids are all hashes, the header
/// names a root that is one, and the ids hash to that root; and nowhere else.
pub proof fn law_accepted_blocks_match_their_header(txs: Seq<TxFullModel>, claimed: Text)
    ensures
        merkle_verdict(txs, claimed) is Ok <==> {
            &&& txs.len() > 0
            &&& forall|i: int| 0 <= i < txs.len() ==> hash_bytes((#[trigger] txs[i]).txid) is Some
            &&& hash_bytes(claimed) is Some
            &&& merkle_root_of(
                Seq::new(txs.len(), |i: int| hash_bytes(txs[i].txid)->0),
            ) == hash_bytes(claimed)
        },
{
    assert(txid_hashes(txs) =~= Seq::new(txs.len(), |i: int| hash_bytes(txs[i].txid)->0));
}

/// A ring takes its newest at the end. Below its cap it keeps all that it has, and at its
/// cap it loses the oldest alone.
pub proof fn law_ring_loses_the_oldest_alone<T>(s: Seq<T>, cap: nat, x: T, i: int)
    requires
        cap > 0,
        s.len() <= cap,
        0 <= i < s.len(),
    ensures
        ring_push(s, cap, x).last() == x,
        s.len() < cap ==> ring_push(s, cap, x).len() == s.len() + 1 && ring_push(s, cap, x)[i]
            == s[i],
        s.len() == cap ==> ring_push(s, cap, x).len() == cap && (i > 0 ==> ring_push(s, cap, x)[i
            - 1] == s[i]),
{
}

// ---------------------------------------------------------------------------
// Comparing with the chain.
// ---------------------------------------------------------------------------

proof fn lemma_recorded(hashes: Map<u32, Text>, from: int, to: int)
    requires
        0 <= from,
        to <= u32::MAX,
    ensures
        forall|g: u32, x: Text| #[trigger]
            recorded(hashes, from, to).contains((g, x)) <==> from <= g <= to && hashes.contains_key(
                g,
            ) && hashes[g] == x,
        forall|i: int, j: int|
            0 <= i < j < recorded(hashes, from, to).len() ==> (#[trigger] recorded(
                hashes,
                from,
                to,
            )[i]).0 < (#[trigger] recorded(hashes, from, to)[j]).0,
    decreases to - from + 1,
{
    if to >= from {
        lemma_recorded(hashes, from, to - 1);
        let less = recorded(hashes, from, to - 1);
        let all = recorded(hashes, from, to);
        let h = to as u32;
        if hashes.contains_key(h) {
            let e = (h, hashes[h]);
            assert(all == less.push(e));
            assert forall|g: u32, x: Text| #[trigger]
                all.contains((g, x)) <==> from <= g <= to && hashes.contains_key(g) && hashes[g]
                    == x by {
                if less.contains((g, x)) {
                    let k = choose|k: int| 0 <= k < less.len() && less[k] == (g, x);
                    assert(all[k] == (g, x));
                }
                assert(all[less.len() as int] == e);
                if all.contains((g, x)) && (g, x) != e {
                    let k = choose|k: int| 0 <= k < all.len() && all[k] == (g, x);
                    assert(less[k] == (g, x));
                    assert(less.contains((g, x)));
                }
            }
            assert forall|i: int, j: int| 0 <= i < j < all.len() implies (#[trigger] all[i]).0
                < (#[trigger] all[j]).0 by {
                if j == less.len() {
                    assert(all[i] == less[i]);
                    assert(less.contains(less[i]));
                    assert(less.contains((less[i].0, less[i].1)));
                } else {
                    assert(all[i] == less[i] && all[j] == less[j]);
                }
            }
        }
    }
}

/// What is compared with the chain is every recorded hash of the last twelve heights, in
/// ascending order.
pub proof fn law_last_twelve_heights_are_compared(l: LedgerModel, g: u32, x: Text)
    requires
        l.height > 0,
    ensures
        probes_of(l).contains((g, x)) <==> g <= l.height && g + 12 > l.height
            && l.block_hashes.contains_key(g) && l.block_hashes[g] == x,
        forall|i: int, j: int|
            0 <= i < j < probes_of(l).len() ==> (#[trigger] probes_of(l)[i]).0 < (
            #[trigger] probes_of(l)[j]).0,
{
    let from = if l.height < 11 {
        0int
    } else {
        l.height - 11
    };
    lemma_recorded(l.block_hashes, from, l.height as int);
    assert(probes_of(l) == recorded(l.block_hashes, from, l.height as int));
}

/// Before any block there is nothing to compare.
pub proof fn law_nothing_is_compared_before_a_block(l: LedgerModel)
    requires
        l.height == 0,
    ensures
        probes_of(l).len() == 0,
{
}

/// The chain agrees with the hash that is recorded at position `i`.
pub open spec fn agrees(
    probes: Seq<(u32, Text)>,
    answers: Seq<Result<String, String>>,
    i: int,
) -> bool {
    i < answers.len() && answers[i] is Ok && answers[i]->Ok_0@ == probes[i].1
}

/// The first position at which the chain does not agree decides: another hash is reported
/// as the divergence, and a missing answer as the failure that it is. Where the chain
/// agrees everywhere there is no divergence.
pub proof fn law_first_disagreement_decides(
    probes: Seq<(u32, Text)>,
    answers: Seq<Result<String, String>>,
    from: int,
    i: int,
)
    requires
        0 <= from <= i <= probes.len(),
        forall|j: int| from <= j < i ==> #[trigger] agrees(probes, answers, j),
    ensures
        i == probes.len() ==> divergence(probes, answers, from) == Ok::<Option<u32>, Text>(None),
        i < probes.len() && i < answers.len() && answers[i] is Ok && answers[i]->Ok_0@
            != probes[i].1 ==> divergence(probes, answers, from) == Ok::<Option<u32>, Text>(
            Some(probes[i].0),
        ),
        i < probes.len() && i < answers.len() && answers[i] is Err ==> divergence(
            probes,
            answers,
            from,
        ) == Err::<Option<u32>, Text>(answers[i]->Err_0@),
        i < probes.len() && i >= answers.len() ==> divergence(probes, answers, from) is Err,
    decreases i - from,
{
    if from < i {
        assert(agrees(probes, answers, from));
        law_first_disagreement_decides(probes, answers, from + 1, i);
    }
}

/// The hash that the node gave last for a height is the one that counts, and a height
/// without an answer has none.
pub proof fn law_last_answer_counts(
    heights: Seq<u32>,
    answers: Seq<Result<String, String>>,
    n: int,
    g: u32,
)
    requires
        0 <= n <= heights.len(),
    ensures
        answered(heights, answers, n).contains_key(g) <==> exists|i: int|
            0 <= i < n && i < answers.len() && (#[trigger] heights[i]) == g && answers[i] is Ok,
        forall|i: int|
            #![trigger heights[i]]
            0 <= i < n && i < answers.len() && heights[i] == g && answers[i] is Ok && (forall|j: int|
                i < j < n && j < answers.len() && (#[trigger] heights[j]) == g ==> answers[j] is Err)
                ==> answered(heights, answers, n)[g] == answers[i]->Ok_0@,
    decreases n,
{
    if n > 0 {
        law_last_answer_counts(heights, answers, n - 1, g);
        let less = answered(heights, answers, n - 1);
        let all = answered(heights, answers, n);
        let k = n - 1;
        if k < answers.len() && heights[k] == g && answers[k] is Ok {
            assert(all.contains_key(g));
            assert(all[g] == answers[k]->Ok_0@);
        } else {
            assert(all.contains_key(g) == less.contains_key(g));
            assert(all.contains_key(g) ==> all[g] == less[g]);
        }
        assert forall|i: int|
            #![trigger heights[i]]
            0 <= i < n && i < answers.len() && heights[i] == g && answers[i] is Ok && (forall|j: int|
                i < j < n && j < answers.len() && (#[trigger] heights[j]) == g ==> answers[j] is Err)
            implies all[g] == answers[i]->Ok_0@ by {
            if i < k {
                if k < answers.len() && heights[k] == g {
                    assert(answers[k] is Err);
                }
                assert(forall|j: int|
                    i < j < n - 1 && j < answers.len() && (#[trigger] heights[j]) == g
                        ==> answers[j] is Err);
            }
        }
    }
}

/// The chain has, whatever its case, the hash that a snapshot has for the height at
/// position `i`, or the snapshot has none.
pub open spec fn confirms(
    hashes: Map<u32, Text>,
    heights: Seq<u32>,
    answers: Seq<Result<String, String>>,
    i: int,
) -> bool {
    hashes.contains_key(heights[i]) ==> i < answers.len() && answers[i] is Ok && same_letters(
        hashes[heights[i]],
        answers[i]->Ok_0@,
    )
}

/// A snapshot may be used where the chain confirms each height that is probed. The first
/// that it does not confirm decides: another hash forbids the snapshot, a missing answer
/// is a failure.
pub proof fn law_snapshot_needs_every_height_confirmed(
    hashes: Map<u32, Text>,
    heights: Seq<u32>,
    answers: Seq<Result<String, String>>,
    from: int,
    i: int,
)
    requires
        0 <= from <= i <= heights.len(),
        forall|j: int| from <= j < i ==> #[trigger] confirms(hashes, heights, answers, j),
    ensures
        i == heights.len() ==> snapshot_verdict(hashes, heights, answers, from) == Ok::<bool, Text>(
            true,
        ),
        i < heights.len() && !confirms(hashes, heights, answers, i) ==> {
            let r = snapshot_verdict(hashes, heights, answers, from);
            &&& i < answers.len() && answers[i] is Ok ==> r == Ok::<bool, Text>(false)
            &&& i < answers.len() && answers[i] is Err ==> r == Err::<bool, Text>(
                answers[i]->Err_0@,
            )
            &&& i >= answers.len() ==> r is Err
        },
    decreases i - from,
{
    if from < heights.len() && hashes.contains_key(heights[from]) && from < answers.len()
        && answers[from] is Ok {
        lemma_same_letters(hashes[heights[from]], answers[from]->Ok_0@);
    }
    if from < i {
        assert(confirms(hashes, heights, answers, from));
        law_snapshot_needs_every_height_confirmed(hashes, heights, answers, from + 1, i);
    }
}

} // verus!
