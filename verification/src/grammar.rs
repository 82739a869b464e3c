//! What a payload looks like on the chain and which picks win, letter by letter.
use vstd::prelude::*;

verus! {

use crate::hashing::hex_bytes;
use crate::laws::{
    law_decoded_bytes_spell_the_payload, law_decoded_payloads_are_in_bounds,
    law_spelled_payloads_are_decoded, spelled, well_formed,
};
use crate::ledger::Text;
use crate::protocol::{
    hex_digit, hit, is_tier, lemma_picks_are_ascii, payload_of, pick_ok, reward_of, tail_of,
    ticker_char, ticker_ok, PayloadModel,
};
use crate::source::{
    is_op_return, op_return_idxs, op_returns, payload_of_tx, pushed, TxFullModel, VoutModel,
};
use crate::text::{ascii_lower, decimal, lemma_decimal_value, lower, lower_char};
use vstd::utf8::is_ascii_chars;

// ---------------------------------------------------------------------------
// Letters.
// ---------------------------------------------------------------------------

/// The two are the same letter, in the same case or not.
pub open spec fn same_letter(a: char, b: char) -> bool {
    ||| a == b
    ||| 'A' <= a <= 'Z' && b as int == a as int + 32
    ||| 'A' <= b <= 'Z' && a as int == b as int + 32
}

/// The two are the same letters, in the same case or not.
pub open spec fn same_letters(a: Text, b: Text) -> bool {
    a.len() == b.len() && forall|i: int| 0 <= i < a.len() ==> same_letter(#[trigger] a[i], b[i])
}

/// A hexadecimal digit of either case.
pub open spec fn is_hex(c: char) -> bool {
    "0123456789abcdefABCDEF"@.contains(c)
}

/// A ticker: one to eight capitals and digits.
pub open spec fn is_ticker(t: Text) -> bool {
    1 <= t.len() <= 8 && forall|i: int|
        0 <= i < t.len() ==> "ABCDEFGHIJKLMNOPQRSTUVWXYZ0123456789"@.contains(#[trigger] t[i])
}

/// How many digits of the block hash a tier is about.
pub open spec fn digits_of(tier: Text) -> nat {
    if tier == "gold"@ {
        3
    } else if tier == "silver"@ {
        2
    } else {
        1
    }
}

/// A pick of a tier: `odd` or `even`, or as many digits as the tier is about.
pub open spec fn is_pick(tier: Text, pick: Text) -> bool {
    if tier == "iron"@ {
        same_letters(pick, "odd"@) || same_letters(pick, "even"@)
    } else {
        pick.len() == digits_of(tier) && forall|i: int|
            0 <= i < pick.len() ==> is_hex(#[trigger] pick[i])
    }
}

/// A payload that the protocol knows.
pub open spec fn legal(p: PayloadModel) -> bool {
    match p {
        PayloadModel::Bet { tier, pick, ticker, win_out_idx, change_out_idx } => {
            &&& tier == "iron"@ || tier == "bronze"@ || tier == "silver"@ || tier == "gold"@
            &&& is_pick(tier, pick)
            &&& is_ticker(ticker)
            &&& win_out_idx <= 255
            &&& change_out_idx matches Some(c) ==> c <= 255
        },
        PayloadModel::Xfer { ticker, amount, to_out_idx, change_out_idx } => {
            &&& is_ticker(ticker)
            &&& 1 <= amount <= 21_000_000
            &&& to_out_idx <= 255
            &&& change_out_idx matches Some(c) ==> c <= 255 && c != to_out_idx
        },
        PayloadModel::Deploy { ticker } => is_ticker(ticker),
    }
}

proof fn lemma_same_letter(a: char, b: char)
    ensures
        same_letter(a, b) <==> lower_char(a) == lower_char(b),
{
}

/// Texts of the same letters are the same in lower case.
pub proof fn lemma_same_letters(a: Text, b: Text)
    ensures
        same_letters(a, b) <==> ascii_lower(a) == ascii_lower(b),
{
    let x = ascii_lower(a);
    let y = ascii_lower(b);
    if same_letters(a, b) {
        assert forall|i: int| 0 <= i < a.len() implies x[i] == y[i] by {
            lemma_same_letter(a[i], b[i]);
        }
        assert(x =~= y);
    }
    if x == y {
        assert(a.len() == x.len() && b.len() == y.len());
        assert forall|i: int| 0 <= i < a.len() implies same_letter(#[trigger] a[i], b[i]) by {
            assert(x[i] == y[i]);
            lemma_same_letter(a[i], b[i]);
        }
    }
}

/// A hexadecimal digit stands for its place among the sixteen, whatever its case.
pub proof fn law_hex_digits(c: char)
    ensures
        hex_digit(c) is Some <==> is_hex(c),
        hex_digit(c) matches Some(v) ==> v < 16 && same_letter(c, "0123456789abcdef"@[v as int]),
{
    reveal_strlit("0123456789abcdefABCDEF");
    reveal_strlit("0123456789abcdef");
    let all = "0123456789abcdefABCDEF"@;
    if '0' <= c && c <= '9' {
        assert(all[c as int - '0' as int] == c);
    } else if 'a' <= c && c <= 'f' {
        assert(all[c as int - 'a' as int + 10] == c);
    } else if 'A' <= c && c <= 'F' {
        assert(all[c as int - 'A' as int + 16] == c);
    }
}

/// Tickers are made of capitals and digits.
pub proof fn law_tickers(t: Text)
    ensures
        ticker_ok(t) <==> is_ticker(t),
{
    assert forall|c: char| #[trigger]
        ticker_char(c) <==> "ABCDEFGHIJKLMNOPQRSTUVWXYZ0123456789"@.contains(c) by {
        reveal_strlit("ABCDEFGHIJKLMNOPQRSTUVWXYZ0123456789");
        let all = "ABCDEFGHIJKLMNOPQRSTUVWXYZ0123456789"@;
        if 'A' <= c && c <= 'Z' {
            assert(all[c as int - 'A' as int] == c);
        } else if '0' <= c && c <= '9' {
            assert(all[c as int - '0' as int + 26] == c);
        }
    }
    if is_ticker(t) {
        assert forall|i: int| 0 <= i < t.len() implies ticker_char(#[trigger] t[i]) by {
            assert("ABCDEFGHIJKLMNOPQRSTUVWXYZ0123456789"@.contains(t[i]));
        }
    }
    if ticker_ok(t) {
        assert forall|i: int| 0 <= i < t.len() implies "ABCDEFGHIJKLMNOPQRSTUVWXYZ0123456789"@.contains(
            #[trigger] t[i],
        ) by {
            assert(ticker_char(t[i]));
        }
    }
}

proof fn lemma_tier_names()
    ensures
        "iron"@ != "bronze"@,
        "iron"@ != "silver"@,
        "iron"@ != "gold"@,
        "bronze"@ != "silver"@,
        "bronze"@ != "gold"@,
        "silver"@ != "gold"@,
{
    reveal_strlit("iron");
    reveal_strlit("bronze");
    reveal_strlit("silver");
    reveal_strlit("gold");
    assert("iron"@[0] == 'i' && "bronze"@[0] == 'b' && "silver"@[0] == 's' && "gold"@[0] == 'g');
}

/// `odd` and `even` are picks of iron, and the digits of the other tiers theirs.
pub proof fn law_picks(tier: Text, pick: Text)
    requires
        is_tier(tier),
    ensures
        pick_ok(tier, pick) <==> is_pick(tier, pick),
{
    lemma_tier_names();
    reveal_strlit("odd");
    reveal_strlit("even");
    assert(ascii_lower("odd"@) =~= "odd"@);
    assert(ascii_lower("even"@) =~= "even"@);
    lemma_same_letters(pick, "odd"@);
    lemma_same_letters(pick, "even"@);
    assert forall|i: int| 0 <= i < pick.len() implies (hex_digit(#[trigger] pick[i]) is Some
        <==> is_hex(pick[i])) by {
        law_hex_digits(pick[i]);
    }
    if tier != "iron"@ && is_pick(tier, pick) {
        assert forall|i: int| 0 <= i < pick.len() implies hex_digit(#[trigger] pick[i]) is Some by {
            assert(is_hex(pick[i]));
        }
    }
    if tier != "iron"@ && pick_ok(tier, pick) {
        assert forall|i: int| 0 <= i < pick.len() implies is_hex(#[trigger] pick[i]) by {
            assert(hex_digit(pick[i]) is Some);
        }
    }
}

/// Bytes decode to a payload where it is one that the protocol knows and they spell it,
/// and nowhere else.
pub proof fn law_grammar(bytes: Seq<u8>, p: PayloadModel)
    ensures
        payload_of(bytes) == Some(p) <==> legal(p) && bytes == spelled(p),
{
    assert(well_formed(p) == legal(p)) by {
        match p {
            PayloadModel::Bet { tier, pick, ticker, .. } => {
                law_tickers(ticker);
                if is_tier(tier) {
                    law_picks(tier, pick);
                }
            },
            PayloadModel::Xfer { ticker, .. } => {
                law_tickers(ticker);
            },
            PayloadModel::Deploy { ticker } => {
                law_tickers(ticker);
            },
        }
    }
    law_decoded_payloads_are_in_bounds(bytes);
    law_decoded_bytes_spell_the_payload(bytes);
    if legal(p) {
        law_spelled_payloads_are_decoded(p);
    }
}

/// A number is spelled digit by digit: the last digit is the number's remainder by ten,
/// and what stands before it spells the quotient.
pub proof fn law_numbers_are_spelled_in_tens(n: nat)
    ensures
        decimal(n).len() > 0,
        decimal(n).last() == "0123456789"@[(n % 10) as int],
        n < 10 <==> decimal(n).len() == 1,
        n >= 10 ==> decimal(n).drop_last() == decimal(n / 10),
{
    reveal_strlit("0123456789");
    lemma_decimal_value(n);
    if n >= 10 {
        lemma_decimal_value(n / 10);
        assert(decimal(n).drop_last() =~= decimal(n / 10));
    }
}

// ---------------------------------------------------------------------------
// Picks that win.
// ---------------------------------------------------------------------------

/// On bronze, silver and gold a pick wins where the block hash ends in it, whatever the
/// case of either.
pub proof fn law_digits_win_on_the_end_of_the_hash(tier: Text, pick: Text, hash: Text)
    requires
        tier == "bronze"@ || tier == "silver"@ || tier == "gold"@,
        is_pick(tier, pick),
        is_ascii_chars(hash),
        hash.len() >= 3,
    ensures
        hit(tier, pick, hash) == Some(
            forall|i: int|
                0 <= i < pick.len() ==> same_letter(
                    #[trigger] pick[i],
                    hash[hash.len() - pick.len() + i],
                ),
        ),
{
    lemma_tier_names();
    law_picks(tier, pick);
    lemma_picks_are_ascii(tier, pick);
    let k = pick.len();
    let end = hash.subrange(hash.len() - k, hash.len() as int);
    assert(tail_of(lower(hash), k) =~= ascii_lower(end));
    lemma_same_letters(pick, end);
    let wins = forall|i: int|
        0 <= i < pick.len() ==> same_letter(#[trigger] pick[i], hash[hash.len() - pick.len() + i]);
    if same_letters(pick, end) {
        assert forall|i: int| 0 <= i < pick.len() implies same_letter(
            #[trigger] pick[i],
            hash[hash.len() - pick.len() + i],
        ) by {
            assert(end[i] == hash[hash.len() - k + i]);
        }
    }
    if wins {
        assert forall|i: int| 0 <= i < pick.len() implies same_letter(#[trigger] pick[i], end[i]) by {
            assert(end[i] == hash[hash.len() - k + i]);
        }
    }
}

/// On iron the last digit of the block hash decides: `odd` wins on an even one and `even`
/// on an odd one.
pub proof fn law_iron_wins_on_the_last_digit(pick: Text, hash: Text, d: nat)
    requires
        is_pick("iron"@, pick),
        hash.len() > 0,
        d < 16,
        same_letter(hash.last(), "0123456789abcdef"@[d as int]),
    ensures
        same_letters(pick, "odd"@) ==> hit("iron"@, pick, hash) == Some(d % 2 == 0),
        same_letters(pick, "even"@) ==> hit("iron"@, pick, hash) == Some(d % 2 == 1),
{
    lemma_tier_names();
    reveal_strlit("odd");
    reveal_strlit("even");
    reveal_strlit("0123456789abcdef");
    assert(ascii_lower("odd"@) =~= "odd"@);
    assert(ascii_lower("even"@) =~= "even"@);
    lemma_same_letters(pick, "odd"@);
    lemma_same_letters(pick, "even"@);
    assert("odd"@.len() != "even"@.len());
    assert(hex_digit(hash.last()) == Some(d as u32));
}

/// No hash decides a wager of an unknown tier, and none decides anything that is empty.
pub proof fn law_unknown_tiers_are_undecided(tier: Text, pick: Text, hash: Text)
    ensures
        hit(tier, pick, hash) is Some ==> hash.len() > 0 && (tier == "iron"@ || tier == "bronze"@
            || tier == "silver"@ || tier == "gold"@),
{
}

/// Each tier has its reward: 100, 1,000, 10,000 and 200,000.
pub proof fn law_rewards()
    ensures
        reward_of("iron"@) == Some(100u64),
        reward_of("bronze"@) == Some(1_000u64),
        reward_of("silver"@) == Some(10_000u64),
        reward_of("gold"@) == Some(200_000u64),
        forall|t: Text| #[trigger]
            reward_of(t) is Some ==> t == "iron"@ || t == "bronze"@ || t == "silver"@ || t
                == "gold"@,
{
    lemma_tier_names();
}

// ---------------------------------------------------------------------------
// Scripts.
// ---------------------------------------------------------------------------

/// The script is `OP_RETURN` and one push of `p`, of any of the four forms that has room
/// for its length.
pub open spec fn pushes(script: Seq<u8>, p: Seq<u8>) -> bool {
    let lo = (p.len() % 256) as u8;
    let hi = (p.len() / 256) as u8;
    &&& p.len() <= 256
    &&& {
        ||| 1 <= p.len() <= 75 && script == seq![0x6au8, lo] + p
        ||| p.len() <= 255 && script == seq![0x6au8, 0x4cu8, lo] + p
        ||| script == seq![0x6au8, 0x4du8, lo, hi] + p
        ||| script == seq![0x6au8, 0x4eu8, lo, hi, 0u8, 0u8] + p
    }
}

/// A script is read as a push of `p` where it is one, in any of the four forms, and
/// nowhere else.
pub proof fn law_pushes_are_read(script: Seq<u8>, p: Seq<u8>)
    ensures
        pushed(script) == Some(p) <==> pushes(script, p),
{
    let b = script;
    let lo = (p.len() % 256) as u8;
    let hi = (p.len() / 256) as u8;
    if pushes(b, p) {
        if 1 <= p.len() <= 75 && b == seq![0x6au8, lo] + p {
            assert(b[0] == 0x6a && b[1] == lo);
            assert(b.skip(2) =~= p);
        } else if p.len() <= 255 && b == seq![0x6au8, 0x4cu8, lo] + p {
            assert(b[0] == 0x6a && b[1] == 0x4c && b[2] == lo);
            assert(b.skip(3) =~= p);
        } else if b == seq![0x6au8, 0x4du8, lo, hi] + p {
            assert(b[0] == 0x6a && b[1] == 0x4d && b[2] == lo && b[3] == hi);
            assert(b.skip(4) =~= p);
        } else {
            assert(b[0] == 0x6a && b[1] == 0x4e && b[2] == lo && b[3] == hi && b[4] == 0 && b[5]
                == 0);
            assert(b.skip(6) =~= p);
        }
    }
    if pushed(b) == Some(p) {
        if 0x01 <= b[1] <= 0x4b {
            assert(b =~= seq![0x6au8, lo] + p);
        } else if b[1] == 0x4c {
            assert(b =~= seq![0x6au8, 0x4cu8, lo] + p);
        } else if b[1] == 0x4d {
            assert(b =~= seq![0x6au8, 0x4du8, lo, hi] + p);
        } else {
            assert(b =~= seq![0x6au8, 0x4eu8, lo, hi, 0u8, 0u8] + p);
        }
    }
}

/// The output's script begins with `OP_RETURN`.
pub open spec fn carries_data(v: VoutModel) -> bool {
    hex_bytes(v.script) matches Some(b) && b.len() > 0 && b[0] == 0x6a
}

/// The output's script pushes the payload.
pub open spec fn carries_payload(v: VoutModel, p: PayloadModel) -> bool {
    hex_bytes(v.script) matches Some(b) && pushes(b, spelled(p))
}

/// Output `i` is the one data output.
pub open spec fn only_data_output(vouts: Seq<VoutModel>, i: int) -> bool {
    &&& 0 <= i < vouts.len()
    &&& carries_data(vouts[i])
    &&& forall|j: int| 0 <= j < vouts.len() && j != i ==> !carries_data(#[trigger] vouts[j])
}

proof fn lemma_op_returns_count(vouts: Seq<VoutModel>)
    ensures
        op_returns(vouts).len() == 0 <==> forall|j: int|
            0 <= j < vouts.len() ==> !carries_data(#[trigger] vouts[j]),
        op_returns(vouts).len() == 1 <==> exists|i: int| only_data_output(vouts, i),
        forall|i: int|
            only_data_output(vouts, i) ==> op_returns(vouts) == seq![#[trigger] vouts[i]],
    decreases vouts.len(),
{
    if vouts.len() > 0 {
        let front = vouts.drop_last();
        let n = front.len() as int;
        lemma_op_returns_count(front);
        assert(forall|j: int| 0 <= j < n ==> front[j] == vouts[j]);
        assert(vouts[n] == vouts.last());
        assert(carries_data(vouts.last()) == is_op_return(vouts.last()));
        if carries_data(vouts[n]) {
            if op_returns(front).len() == 0 {
                assert forall|j: int| 0 <= j < vouts.len() && j != n implies !carries_data(
                    #[trigger] vouts[j],
                ) by {
                    assert(front[j] == vouts[j]);
                }
                assert(only_data_output(vouts, n));
            } else {
                let k = choose|k: int| 0 <= k < n && carries_data(front[k]);
                assert(carries_data(vouts[k]));
                assert(!exists|i: int| only_data_output(vouts, i));
            }
            assert forall|i: int| only_data_output(vouts, i) implies op_returns(vouts) == seq![
                #[trigger] vouts[i],
            ] by {
                assert(i == n);
                assert forall|j: int| 0 <= j < n implies !carries_data(#[trigger] front[j]) by {
                    assert(front[j] == vouts[j]);
                }
                assert(op_returns(vouts) =~= seq![vouts[n]]);
            }
        } else {
            assert forall|i: int| only_data_output(vouts, i) implies only_data_output(front, i) by {
                assert(i < n);
                assert(front[i] == vouts[i]);
            }
            assert forall|i: int| only_data_output(front, i) implies only_data_output(vouts, i) by {
                assert(front[i] == vouts[i]);
            }
            if op_returns(vouts).len() == 0 {
                assert forall|j: int| 0 <= j < vouts.len() implies !carries_data(
                    #[trigger] vouts[j],
                ) by {
                    if j < n {
                        assert(front[j] == vouts[j]);
                    }
                }
            }
            if op_returns(vouts).len() == 1 {
                let i = choose|i: int| only_data_output(front, i);
                assert(only_data_output(vouts, i));
            }
            if forall|j: int| 0 <= j < vouts.len() ==> !carries_data(#[trigger] vouts[j]) {
                assert forall|j: int| 0 <= j < n implies !carries_data(#[trigger] front[j]) by {
                    assert(front[j] == vouts[j]);
                }
            }
        }
    } else {
        assert(!exists|i: int| only_data_output(vouts, i));
    }
}

/// A transaction carries a payload where exactly one of its outputs begins with
/// `OP_RETURN`, that output pushes the payload's spelling, and the payload is one that the
/// protocol knows.
pub proof fn law_payload_stands_on_the_only_data_output(tx: TxFullModel, p: PayloadModel)
    ensures
        payload_of_tx(tx) == Some(p) <==> legal(p) && exists|i: int| #[trigger]
            only_data_output(tx.vout, i) && carries_payload(tx.vout[i], p),
{
    lemma_op_returns_count(tx.vout);
    law_grammar(spelled(p), p);
    if exists|i: int| #[trigger] only_data_output(tx.vout, i) {
        let i = choose|i: int| #[trigger] only_data_output(tx.vout, i);
        let v = tx.vout[i];
        assert(op_returns(tx.vout)[0] == v);
        let b = hex_bytes(v.script)->0;
        law_pushes_are_read(b, spelled(p));
        if let Some(q) = pushed(b) {
            law_grammar(q, p);
            law_pushes_are_read(b, q);
        }
        assert forall|j: int| #[trigger] only_data_output(tx.vout, j) implies j == i by {
            if j != i {
                assert(!carries_data(tx.vout[j]));
            }
        }
    }
}

/// A transaction whose only data output directly pushes the spelling of a payload that the
/// protocol knows has that payload.
pub proof fn law_direct_push_is_found(tx: TxFullModel, i: int, p: PayloadModel)
    requires
        only_data_output(tx.vout, i),
        legal(p),
        1 <= spelled(p).len() <= 75,
        hex_bytes(tx.vout[i].script) == Some(seq![0x6au8, spelled(p).len() as u8] + spelled(p)),
    ensures
        payload_of_tx(tx) == Some(p),
{
    assert(carries_payload(tx.vout[i], p));
    law_payload_stands_on_the_only_data_output(tx, p);
}

/// The outputs that take no tokens for carrying data are those whose scripts begin with
/// `OP_RETURN`, each of them and no other.
pub proof fn law_data_outputs_are_listed(vouts: Seq<VoutModel>, i: u32)
    requires
        vouts.len() <= u32::MAX,
    ensures
        op_return_idxs(vouts).contains(i) <==> i < vouts.len() && carries_data(vouts[i as int]),
    decreases vouts.len(),
{
    if vouts.len() > 0 {
        let front = vouts.drop_last();
        let n = front.len() as int;
        law_data_outputs_are_listed(front, i);
        assert(i < n ==> front[i as int] == vouts[i as int]);
        let less = op_return_idxs(front);
        let all = op_return_idxs(vouts);
        if is_op_return(vouts.last()) {
            assert(all == less.push(n as u32));
            if less.contains(i) {
                let k = choose|k: int| 0 <= k < less.len() && less[k] == i;
                assert(all[k] == i);
            }
            assert(all[less.len() as int] == n as u32);
            if all.contains(i) && i != n {
                let k = choose|k: int| 0 <= k < all.len() && all[k] == i;
                assert(less[k] == i);
            }
        }
    }
}

} // verus!
