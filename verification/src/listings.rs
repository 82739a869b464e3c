//! What is listed, in which order, and what is left out.
use vstd::prelude::*;

verus! {

use crate::core_rpc::{primary_address_of, script_type_of, tx_of, CoreScriptPubKey, CoreTx};
use crate::grammar::{lemma_same_letters, same_letters};
use crate::indexer::{balances_of, carries, held, total_of, StateModel};
use crate::ledger::{
    amount_in, outpoint, sat, BetModel, LedgerModel, Text, TransferModel, UtxoModel,
};
use crate::order::{
    in_order, is_listing, lemma_row_irreflexive, lemma_row_total, lemma_row_transitive, listing,
    row_before, text_before, RowModel,
};
use crate::server::{
    bet_filter, entry_for, holder_list, holder_rows, holders_of, involves, is_stalled,
    law_outpoint_is_given_back, limit_for, newest_first, page_of, passing, sent_by, shown_outpoints,
    token_limit, token_list, token_rows, transfer_filter,
};
use crate::sums::lemma_sum_insert;
use crate::text::{ascii_lower, ascii_upper, lower, lower_char, upper_char};

// ---------------------------------------------------------------------------
// Pages.
// ---------------------------------------------------------------------------

/// A page shows what follows its offset, in place and order, as much of it as the limit
/// allows.
pub proof fn law_pages_follow_their_offset<T>(s: Seq<T>, offset: nat, limit: nat, i: int)
    ensures
        ({
            let page = page_of(s, offset, limit);
            &&& offset + limit <= s.len() ==> page.len() == limit
            &&& offset <= s.len() && s.len() < offset + limit ==> page.len() == s.len() - offset
            &&& offset > s.len() ==> page.len() == 0
            &&& 0 <= i < page.len() ==> page[i] == s[offset + i]
        }),
{
}

/// Pages one after the other give the whole list.
pub proof fn law_pages_join<T>(s: Seq<T>, offset: nat, a: nat, b: nat)
    ensures
        page_of(s, offset, a) + page_of(s, offset + a, b) == page_of(s, offset, a + b),
        page_of(s, 0, s.len()) == s,
{
    assert(page_of(s, offset, a) + page_of(s, offset + a, b) =~= page_of(s, offset, a + b));
    assert(page_of(s, 0, s.len()) =~= s);
}

/// A limit that is asked for is granted up to the most; without one there is the default.
pub proof fn law_limits(asked: Option<usize>, default: usize, most: usize)
    requires
        default <= most,
    ensures
        asked is None ==> limit_for(asked, default, most) == default,
        asked matches Some(n) && n <= most ==> limit_for(asked, default, most) == asked->0,
        asked matches Some(n) && n > most ==> limit_for(asked, default, most) == most,
{
}

/// A page of tokens has one to thirty of them, and ten without a limit.
pub proof fn law_token_limits(asked: Option<usize>)
    ensures
        asked is None ==> token_limit(asked) == 10,
        asked matches Some(n) && 1 <= n <= 30 ==> token_limit(asked) == asked->0,
        asked == Some(0usize) ==> token_limit(asked) == 1,
        asked matches Some(n) && n > 30 ==> token_limit(asked) == 30,
{
}

// ---------------------------------------------------------------------------
// Logs.
// ---------------------------------------------------------------------------

/// The entries that pass keep the log's order: a log in two parts has those of the first,
/// then those of the second, and one entry is listed if it passes.
pub proof fn law_passing_keeps_the_order<T>(a: Seq<T>, b: Seq<T>, x: T, pass: spec_fn(T) -> bool)
    ensures
        passing(Seq::<T>::empty(), pass) == Seq::<T>::empty(),
        pass(x) ==> passing(seq![x], pass) == seq![x],
        !pass(x) ==> passing(seq![x], pass) == Seq::<T>::empty(),
        passing(a + b, pass) == passing(a, pass) + passing(b, pass),
    decreases b.len(),
{
    let none = Seq::<T>::empty();
    assert(seq![x].drop_last() =~= none);
    assert(seq![x].last() == x);
    assert(passing(none, pass) == none);
    assert(none.push(x) =~= seq![x]);
    if b.len() == 0 {
        assert(a + b =~= a);
        assert(passing(a, pass) + passing(b, pass) =~= passing(a, pass));
    } else {
        law_passing_keeps_the_order(a, b.drop_last(), x, pass);
        assert((a + b).drop_last() =~= a + b.drop_last());
        assert((a + b).last() == b.last());
        assert(passing(a + b, pass) =~= passing(a, pass) + passing(b, pass));
    }
}

/// The newest entry comes first: a log in two parts has those of the second, then those of
/// the first, and one entry is listed if it passes.
pub proof fn law_newest_comes_first<T>(a: Seq<T>, b: Seq<T>, x: T, pass: spec_fn(T) -> bool)
    ensures
        newest_first(Seq::<T>::empty(), pass) == Seq::<T>::empty(),
        pass(x) ==> newest_first(seq![x], pass) == seq![x],
        !pass(x) ==> newest_first(seq![x], pass) == Seq::<T>::empty(),
        newest_first(a + b, pass) == newest_first(b, pass) + newest_first(a, pass),
    decreases a.len(),
{
    let none = Seq::<T>::empty();
    assert(seq![x].skip(1) =~= none);
    assert(newest_first(none, pass) == none);
    assert(none.push(x) =~= seq![x]);
    if a.len() == 0 {
        assert(a + b =~= b);
        assert(newest_first(b, pass) + newest_first(a, pass) =~= newest_first(b, pass));
    } else {
        law_newest_comes_first(a.skip(1), b, x, pass);
        assert((a + b).skip(1) =~= a.skip(1) + b);
        assert((a + b)[0] == a[0]);
        assert(newest_first(a + b, pass) =~= newest_first(b, pass) + newest_first(a, pass));
    }
}

/// Everything that is listed of a log is in it and passes, and everything in it that passes
/// is listed.
pub proof fn law_listed_entries_pass<T>(log: Seq<T>, pass: spec_fn(T) -> bool, x: T)
    ensures
        passing(log, pass).contains(x) <==> log.contains(x) && pass(x),
        newest_first(log, pass).contains(x) <==> log.contains(x) && pass(x),
        newest_first(log, pass).len() == passing(log, pass).len(),
    decreases log.len(),
{
    if log.len() > 0 {
        let front = log.drop_last();
        let e = log.last();
        law_listed_entries_pass(front, pass, x);
        law_newest_comes_first(front, seq![e], e, pass);
        law_passing_keeps_the_order(front, seq![e], e, pass);
        assert(front + seq![e] =~= log);
        let p = passing(front, pass);
        let q = newest_first(front, pass);
        if log.contains(x) {
            let i = choose|i: int| 0 <= i < log.len() && log[i] == x;
            if i < front.len() {
                assert(front[i] == x);
            }
        }
        if front.contains(x) {
            let i = choose|i: int| 0 <= i < front.len() && front[i] == x;
            assert(log[i] == x);
        }
        assert(log[log.len() - 1] == e);
        if pass(e) {
            assert(passing(log, pass) == p + seq![e]);
            assert(newest_first(log, pass) == seq![e] + q);
            if p.contains(x) {
                let i = choose|i: int| 0 <= i < p.len() && p[i] == x;
                assert((p + seq![e])[i] == x);
            }
            if (p + seq![e]).contains(x) && x != e {
                let i = choose|i: int| 0 <= i < p.len() + 1 && (p + seq![e])[i] == x;
                assert(p[i] == x);
            }
            assert((p + seq![e])[p.len() as int] == e);
            if q.contains(x) {
                let i = choose|i: int| 0 <= i < q.len() && q[i] == x;
                assert((seq![e] + q)[i + 1] == x);
            }
            if (seq![e] + q).contains(x) && x != e {
                let i = choose|i: int| 0 <= i < q.len() + 1 && (seq![e] + q)[i] == x;
                assert(q[i - 1] == x);
            }
            assert((seq![e] + q)[0] == e);
        } else {
            assert(passing(log, pass) =~= p);
            assert(newest_first(log, pass) =~= q);
        }
    }
}

proof fn lemma_upper_then_lower(t: Text)
    ensures
        ascii_lower(ascii_upper(t)) == ascii_lower(t),
{
    assert forall|i: int| 0 <= i < t.len() implies lower_char(upper_char(#[trigger] t[i]))
        == lower_char(t[i]) by {}
    assert(ascii_lower(ascii_upper(t)) =~= ascii_lower(t));
}

/// A filter asks for a tier or a ticker in any case; without a filter all passes.
pub proof fn law_filters_take_any_case(
    tier: Option<Text>,
    ticker: Option<Text>,
    b: BetModel,
    t: TransferModel,
)
    requires
        ascii_lower(b.tier) == b.tier,
    ensures
        bet_filter(tier, ticker)(b) <==> (tier is None || same_letters(tier->0, b.tier)) && (
        ticker is None || same_letters(ticker->0, b.ticker)),
        transfer_filter(ticker)(t) <==> ticker is None || same_letters(ticker->0, t.ticker),
{
    if let Some(x) = tier {
        lemma_same_letters(x, b.tier);
    }
    if let Some(x) = ticker {
        lemma_upper_then_lower(x);
        lemma_same_letters(x, b.ticker);
        lemma_same_letters(x, t.ticker);
    }
}

/// The wagers of an address are those that it sent. Its transfers are those that it sent
/// and those to an output that it holds.
pub proof fn law_entries_of_an_address(l: LedgerModel, address: Text, b: BetModel, t: TransferModel)
    ensures
        sent_by(address)(b) <==> b.sender == address,
        involves(l, address)(t) <==> t.sender == address || (l.utxos.contains_key(
            outpoint(t.txid, t.to_out_idx),
        ) && l.utxos[outpoint(t.txid, t.to_out_idx)].address == Some(address)),
{
}

// ---------------------------------------------------------------------------
// Balances.
// ---------------------------------------------------------------------------

/// What outpoints hold together adds up, outpoint by outpoint; one that holds nothing adds
/// nothing.
pub proof fn law_balances_add_up(
    utxos: Map<Text, UtxoModel>,
    keys: Set<Text>,
    key: Text,
    ticker: Text,
)
    requires
        keys.finite(),
        !keys.contains(key),
    ensures
        held(utxos, Set::empty(), ticker) == 0,
        held(utxos, keys.insert(key), ticker) == held(utxos, keys, ticker) + (if utxos.contains_key(
            key,
        ) && utxos[key].balances.contains_key(ticker) {
            utxos[key].balances[ticker] as nat
        } else {
            0
        }),
        amount_in(balances_of(utxos, keys), ticker) == sat(held(utxos, keys, ticker)),
        balances_of(utxos, keys).contains_key(ticker) <==> exists|k: Text| #[trigger]
            keys.contains(k) && utxos.contains_key(k) && utxos[k].balances.contains_key(ticker),
{
    let f = |k: Text| amount_in(utxos[k].balances, ticker) as nat;
    let here = keys.intersect(utxos.dom());
    assert(Set::<Text>::empty().intersect(utxos.dom()) =~= Set::empty());
    if utxos.contains_key(key) {
        assert(keys.insert(key).intersect(utxos.dom()) =~= here.insert(key));
        lemma_sum_insert(here, f, key);
    } else {
        assert(keys.insert(key).intersect(utxos.dom()) =~= here);
    }
    if !carries(utxos, keys, ticker) {
        lemma_nothing_held(utxos, keys, ticker);
    }
}

proof fn lemma_nothing_held(utxos: Map<Text, UtxoModel>, keys: Set<Text>, ticker: Text)
    requires
        keys.finite(),
        !carries(utxos, keys, ticker),
    ensures
        held(utxos, keys, ticker) == 0,
{
    let f = |k: Text| amount_in(utxos[k].balances, ticker) as nat;
    let here = keys.intersect(utxos.dom());
    assert forall|k: Text| here.contains(k) implies #[trigger] f(k) == 0 by {
        assert(keys.contains(k) && utxos.contains_key(k));
    }
    lemma_zero_sum(here, f);
}

proof fn lemma_zero_sum(s: Set<Text>, f: spec_fn(Text) -> nat)
    requires
        forall|k: Text| s.contains(k) ==> #[trigger] f(k) == 0,
    ensures
        crate::sums::sum_over(s, f) == 0,
    decreases s.len(),
{
    if s.finite() && s.len() > 0 {
        let x = s.choose();
        assert(s.contains(x));
        assert(f(x) == 0);
        lemma_zero_sum(s.remove(x), f);
    }
}

/// What all outputs hold of a ticker is what they hold as the outpoints of one owner.
pub proof fn law_total_is_what_all_hold(utxos: Map<Text, UtxoModel>, ticker: Text)
    ensures
        total_of(utxos, ticker) == held(utxos, utxos.dom(), ticker),
{
    assert(utxos.dom().intersect(utxos.dom()) =~= utxos.dom());
}

/// The outpoints that are shown of an address are those that it has with some amount above
/// zero, each with the transaction, the index and the tokens that it has.
pub proof fn law_outpoints_with_tokens_are_shown(l: LedgerModel, address: Text, txid: Text, v: u32)
    requires
        forall|i: int| 0 <= i < lower(txid).len() ==> lower(txid)[i] != ':',
    ensures
        ({
            let key = outpoint(txid, v);
            &&& shown_outpoints(l, address).contains(key) <==> l.addrs.contains_key(address)
                && l.addrs[address].contains(key) && l.utxos.contains_key(key) && exists|t: Text|
                #[trigger] l.utxos[key].balances.contains_key(t) && l.utxos[key].balances[t] > 0
            &&& entry_for(l, key).txid == lower(txid)
            &&& entry_for(l, key).vout == v
            &&& entry_for(l, key).balances == l.utxos[key].balances
        }),
{
    law_outpoint_is_given_back(txid, v);
}

/// The indexer is stalled where it is behind the tip and has made no progress for more than
/// two minutes.
pub proof fn law_stalled_after_two_minutes(s: StateModel, now: u64)
    ensures
        is_stalled(s, now) <==> s.ledger.height < s.tip_height && now > s.last_progress_at + 120,
{
}

// ---------------------------------------------------------------------------
// Ordered lists.
// ---------------------------------------------------------------------------

/// A text comes before another where it is the beginning of it, or has the smaller
/// character at the first place at which they differ.
pub proof fn law_texts_are_ordered_by_their_first_difference(a: Text, b: Text, k: int)
    requires
        0 <= k <= a.len(),
        k <= b.len(),
        forall|i: int| 0 <= i < k ==> a[i] == b[i],
    ensures
        k == a.len() ==> (text_before(a, b) <==> a.len() < b.len()),
        k == b.len() ==> !text_before(a, b),
        k < a.len() && k < b.len() && a[k] != b[k] ==> (text_before(a, b) <==> a[k] < b[k]),
    decreases k,
{
    if k > 0 {
        assert(a[0] == b[0]);
        assert forall|i: int| 0 <= i < k - 1 implies a.skip(1)[i] == b.skip(1)[i] by {
            assert(a[i + 1] == b[i + 1]);
        }
        law_texts_are_ordered_by_their_first_difference(a.skip(1), b.skip(1), k - 1);
    }
}

/// A row finds its place among rows in order.
proof fn lemma_place_row(s: Seq<RowModel>, x: RowModel) -> (t: Seq<RowModel>)
    requires
        in_order(s, true),
        !s.contains(x),
    ensures
        in_order(t, true),
        forall|r: RowModel| #[trigger] t.contains(r) <==> s.contains(r) || r == x,
        t.len() == s.len() + 1,
    decreases s.len(),
{
    if s.len() == 0 {
        let t = seq![x];
        assert(t[0] == x);
        t
    } else {
        let last = s.last();
        let front = s.drop_last();
        assert(s[s.len() - 1] == last);
        assert forall|r: RowModel| #[trigger] s.contains(r) <==> front.contains(r) || r == last by {
            if s.contains(r) && r != last {
                let i = choose|i: int| 0 <= i < s.len() && s[i] == r;
                assert(front[i] == r);
            }
            if front.contains(r) {
                let i = choose|i: int| 0 <= i < front.len() && front[i] == r;
                assert(s[i] == r);
            }
        }
        lemma_row_total(last, x);
        if row_before(last, x) {
            let t = s.push(x);
            assert forall|i: int, j: int| 0 <= i < j < t.len() implies row_before(
                #[trigger] t[i],
                #[trigger] t[j],
            ) by {
                if j == s.len() && i < s.len() - 1 {
                    assert(row_before(s[i], s[s.len() - 1]));
                    lemma_row_transitive(s[i], last, x);
                } else if j < s.len() {
                    assert(row_before(s[i], s[j]));
                }
            }
            assert forall|r: RowModel| #[trigger] t.contains(r) <==> s.contains(r) || r == x by {
                if s.contains(r) {
                    let i = choose|i: int| 0 <= i < s.len() && s[i] == r;
                    assert(t[i] == r);
                }
                assert(t[s.len() as int] == x);
                if t.contains(r) && r != x {
                    let i = choose|i: int| 0 <= i < t.len() && t[i] == r;
                    assert(s[i] == r);
                }
            }
            t
        } else {
            assert forall|i: int, j: int| 0 <= i < j < front.len() implies row_before(
                #[trigger] front[i],
                #[trigger] front[j],
            ) by {
                assert(row_before(s[i], s[j]));
            }
            let u = lemma_place_row(front, x);
            let t = u.push(last);
            assert forall|i: int, j: int| 0 <= i < j < t.len() implies row_before(
                #[trigger] t[i],
                #[trigger] t[j],
            ) by {
                if j == u.len() {
                    assert(u.contains(u[i]));
                    if u[i] != x {
                        let k = choose|k: int| 0 <= k < front.len() && front[k] == u[i];
                        assert(row_before(s[k], s[s.len() - 1]));
                    }
                } else {
                    assert(row_before(u[i], u[j]));
                }
            }
            assert forall|r: RowModel| #[trigger] t.contains(r) <==> s.contains(r) || r == x by {
                if u.contains(r) {
                    let i = choose|i: int| 0 <= i < u.len() && u[i] == r;
                    assert(t[i] == r);
                }
                assert(t[u.len() as int] == last);
                if t.contains(r) && r != last {
                    let i = choose|i: int| 0 <= i < t.len() && t[i] == r;
                    assert(u[i] == r);
                }
            }
            t
        }
    }
}

/// A finite set of rows has a listing.
proof fn lemma_listing_exists(rows: Set<RowModel>) -> (s: Seq<RowModel>)
    requires
        rows.finite(),
    ensures
        is_listing(s, rows),
        s.len() == rows.len(),
    decreases rows.len(),
{
    if rows.len() == 0 {
        assert(rows =~= Set::empty());
        Seq::empty()
    } else {
        let x = rows.choose();
        let s = lemma_listing_exists(rows.remove(x));
        lemma_place_row(s, x)
    }
}

/// A list of rows has each row of a set once, in order.
pub proof fn law_rows_are_listed_in_order(rows: Set<RowModel>, i: int, j: int)
    requires
        rows.finite(),
    ensures
        listing(rows).len() == rows.len(),
        forall|r: RowModel| #[trigger] listing(rows).contains(r) <==> rows.contains(r),
        0 <= i < j < rows.len() ==> {
            let a = listing(rows)[i];
            let b = listing(rows)[j];
            &&& a != b
            &&& a.rank <= b.rank
            &&& a.rank == b.rank ==> a.text == b.text || text_before(a.text, b.text)
            &&& a.rank == b.rank && a.text == b.text ==> text_before(a.key, b.key)
        },
{
    let s = lemma_listing_exists(rows);
    assert(is_listing(listing(rows), rows));
    crate::order::law_listing_is_unique(s, listing(rows), rows);
    if 0 <= i < j < rows.len() {
        assert(row_before(listing(rows)[i], listing(rows)[j]));
        lemma_row_irreflexive(listing(rows)[i]);
        if listing(rows)[i].text == listing(rows)[j].text {
            lemma_texts_are_strict(listing(rows)[i].text);
        }
    }
}

proof fn lemma_texts_are_strict(t: Text)
    ensures
        !text_before(t, t),
{
    law_texts_are_ordered_by_their_first_difference(t, t, t.len() as int);
}

/// The row of a holder.
spec fn holder_row(l: LedgerModel, ticker: Text, a: Text) -> RowModel {
    RowModel { rank: (u64::MAX - sat(held(l.utxos, l.addrs[a], ticker))) as u64, text: a, key: a }
}

proof fn lemma_holder_rows_finite(l: LedgerModel, ticker: Text)
    requires
        l.addrs.dom().finite(),
    ensures
        holder_rows(l, ticker).finite(),
        holder_rows(l, ticker).len() == holders_of(l, ticker).len(),
{
    let f = |a: Text| holder_row(l, ticker, a);
    let who = holders_of(l, ticker);
    let rows = holder_rows(l, ticker);
    assert(who.finite());
    assert(who.map(f) =~= rows) by {
        assert forall|r: RowModel| rows.contains(r) implies who.map(f).contains(r) by {
            assert(who.contains(r.key));
            assert(f(r.key) == r);
        }
        assert forall|r: RowModel| who.map(f).contains(r) implies rows.contains(r) by {
            let a = choose|a: Text| who.contains(a) && f(a) == r;
            assert(holder_row(l, ticker, a) == r);
        }
    }
    assert(vstd::relations::injective_on(f, who));
    vstd::set_lib::lemma_map_size(who, rows, f);
}

/// The holders of a ticker are the addresses whose outpoints hold some of it, each once
/// and with all that they hold: the largest first, and by address among equals.
pub proof fn law_holders_are_listed_by_balance(
    l: LedgerModel,
    ticker: Text,
    address: Text,
    amount: u64,
    i: int,
    j: int,
)
    requires
        l.addrs.dom().finite(),
    ensures
        ({
            let list = holder_list(l, ticker);
            &&& list.contains((address, amount)) <==> l.addrs.contains_key(address) && amount > 0
                && amount == sat(held(l.utxos, l.addrs[address], ticker))
            &&& list.len() == l.addrs.dom().filter(
                |a: Text| held(l.utxos, l.addrs[a], ticker) > 0,
            ).len()
            &&& 0 <= i < j < list.len() ==> {
                &&& list[i].0 != list[j].0
                &&& list[i].1 >= list[j].1
                &&& list[i].1 == list[j].1 ==> text_before(list[i].0, list[j].0)
            }
        }),
{
    let rows = holder_rows(l, ticker);
    let list = holder_list(l, ticker);
    let s = listing(rows);
    lemma_holder_rows_finite(l, ticker);
    law_rows_are_listed_in_order(rows, i, j);
    assert(holders_of(l, ticker) =~= l.addrs.dom().filter(
        |a: Text| held(l.utxos, l.addrs[a], ticker) > 0,
    ));
    if list.contains((address, amount)) {
        let k = choose|k: int| 0 <= k < list.len() && list[k] == (address, amount);
        assert(s.contains(s[k]));
        assert(rows.contains(s[k]));
    }
    if l.addrs.contains_key(address) && amount > 0 && amount == sat(
        held(l.utxos, l.addrs[address], ticker),
    ) {
        let r = holder_row(l, ticker, address);
        assert(rows.contains(r));
        assert(s.contains(r));
        let k = choose|k: int| 0 <= k < s.len() && s[k] == r;
        assert(list[k] == (address, amount));
    }
    if 0 <= i < j < list.len() {
        assert(s.contains(s[i]) && s.contains(s[j]));
        assert(rows.contains(s[i]) && rows.contains(s[j]));
        assert(s[i].text == s[i].key && s[j].text == s[j].key);
        assert(list[i] == (s[i].key, (u64::MAX - s[i].rank) as u64));
        assert(list[j] == (s[j].key, (u64::MAX - s[j].rank) as u64));
        if s[i].key == s[j].key {
            assert(s[i] == s[j]);
        }
    }
}

/// The tokens are listed each once, by the block of their deployment and by ticker among
/// equals, with the number of addresses that hold some.
pub proof fn law_tokens_are_listed_by_deployment(l: LedgerModel, key: Text, i: int, j: int)
    requires
        l.tokens.dom().finite(),
    ensures
        ({
            let list = token_list(l);
            &&& list.len() == l.tokens.dom().len()
            &&& l.tokens.contains_key(key) ==> exists|k: int|
                0 <= k < list.len() && (#[trigger] list[k]).token == l.tokens[key]
            &&& 0 <= i < list.len() ==> {
                &&& l.tokens.contains_value(list[i].token)
                &&& list[i].holders == l.addrs.dom().filter(
                    |a: Text| held(l.utxos, l.addrs[a], list[i].token.ticker) > 0,
                ).len()
            }
            &&& 0 <= i < j < list.len() ==> {
                &&& list[i].token.deploy_block <= list[j].token.deploy_block
                &&& list[i].token.deploy_block == list[j].token.deploy_block
                    ==> list[i].token.ticker == list[j].token.ticker || text_before(
                    list[i].token.ticker,
                    list[j].token.ticker,
                )
            }
        }),
{
    let list = token_list(l);
    let rows = token_rows(l.tokens);
    let s = listing(rows);
    let f = |t: Text|
        RowModel { rank: l.tokens[t].deploy_block as u64, text: l.tokens[t].ticker, key: t };
    let names = l.tokens.dom();
    assert(names.map(f) =~= rows) by {
        assert forall|r: RowModel| rows.contains(r) implies names.map(f).contains(r) by {
            assert(names.contains(r.key));
            assert(f(r.key) == r);
        }
        assert forall|r: RowModel| names.map(f).contains(r) implies rows.contains(r) by {
            let t = choose|t: Text| names.contains(t) && f(t) == r;
            assert(l.tokens.contains_key(t));
        }
    }
    assert(vstd::relations::injective_on(f, names));
    vstd::set_lib::lemma_map_size(names, rows, f);
    names.lemma_map_finite(f);
    law_rows_are_listed_in_order(rows, i, j);
    if l.tokens.contains_key(key) {
        assert(rows.contains(f(key)));
        assert(s.contains(f(key)));
        let k = choose|k: int| 0 <= k < s.len() && s[k] == f(key);
        assert(list[k].token == l.tokens[key]);
    }
    if 0 <= i < list.len() {
        assert(s.contains(s[i]));
        assert(rows.contains(s[i]));
        assert(l.tokens.contains_key(s[i].key));
        assert(holders_of(l, list[i].token.ticker) =~= l.addrs.dom().filter(
            |a: Text| held(l.utxos, l.addrs[a], list[i].token.ticker) > 0,
        ));
    }
    if 0 <= i < j < list.len() {
        assert(s.contains(s[j]));
        assert(rows.contains(s[j]));
    }
}

// ---------------------------------------------------------------------------
// The node's transactions.
// ---------------------------------------------------------------------------

/// A transaction of the node is taken over input by input and output by output: the same
/// ids, indices, values and scripts in the same places.
pub proof fn law_transactions_are_taken_over(t: CoreTx, i: int)
    ensures
        tx_of(t).txid == t.txid@,
        tx_of(t).vin.len() == t.vin@.len(),
        tx_of(t).vout.len() == t.vout@.len(),
        0 <= i < t.vin@.len() ==> {
            let a = tx_of(t).vin[i];
            let b = t.vin@[i];
            &&& a.txid == b.txid@
            &&& a.vout == b.vout
            &&& a.prevout is Some <==> b.prevout is Some
            &&& b.prevout matches Some(p) ==> a.prevout->0.value == p.sats && a.prevout->0.script
                == p.script_pub_key.hex@ && a.prevout->0.address == primary_address_of(
                p.script_pub_key,
            )
        },
        0 <= i < t.vout@.len() ==> {
            let a = tx_of(t).vout[i];
            let b = t.vout@[i];
            &&& a.value == b.sats
            &&& a.script == b.script_pub_key.hex@
            &&& a.address == primary_address_of(b.script_pub_key)
        },
{
}

/// The address of a script is its single one where it has one, or else the first of
/// several, or else none.
pub proof fn law_script_address(s: CoreScriptPubKey)
    ensures
        s.address matches Some(a) ==> primary_address_of(s) == Some(a@),
        s.address is None && s.addresses is Some && s.addresses->0@.len() > 0 ==> primary_address_of(
            s,
        ) == Some(s.addresses->0@[0]@),
        s.address is None && (s.addresses is None || s.addresses->0@.len() == 0)
            ==> primary_address_of(s) is None,
{
}

/// Six of the node's names for script types have another name here, each its own; all
/// others are kept.
pub proof fn law_script_types()
    ensures
        script_type_of("nulldata"@) == "op_return"@,
        script_type_of("witness_v0_keyhash"@) == "v0_p2wpkh"@,
        script_type_of("witness_v0_scripthash"@) == "v0_p2wsh"@,
        script_type_of("witness_v1_taproot"@) == "v1_p2tr"@,
        script_type_of("pubkeyhash"@) == "p2pkh"@,
        script_type_of("scripthash"@) == "p2sh"@,
        forall|t: Text|
            t != "nulldata"@ && t != "witness_v0_keyhash"@ && t != "witness_v0_scripthash"@ && t
                != "witness_v1_taproot"@ && t != "pubkeyhash"@ && t != "scripthash"@
                ==> #[trigger] script_type_of(t) == t,
{
    reveal_strlit("nulldata");
    reveal_strlit("witness_v0_keyhash");
    reveal_strlit("witness_v0_scripthash");
    reveal_strlit("witness_v1_taproot");
    reveal_strlit("pubkeyhash");
    reveal_strlit("scripthash");
    assert("nulldata"@.len() == 8 && "witness_v0_keyhash"@.len() == 18
        && "witness_v0_scripthash"@.len() == 21 && "witness_v1_taproot"@.len() == 18
        && "pubkeyhash"@.len() == 10 && "scripthash"@.len() == 10);
    assert("witness_v0_keyhash"@[9] == '0' && "witness_v1_taproot"@[9] == '1');
    assert("pubkeyhash"@[0] == 'p' && "scripthash"@[0] == 's');
}

} // verus!
