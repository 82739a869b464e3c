//! The payload grammar and the settlement predicate.
//!
//! A payload is the text pushed by a transaction's single `OP_RETURN` output: fields
//! separated by `|`, the first of which is `PROTOCOL_PREFIX` and the second an opcode.
use vstd::prelude::*;

use crate::text::{
    chars_of, from_utf8, read_uint, same_text, split_fields, text_of, to_ascii_lower, to_lowercase,
};

verus! {

use crate::text::{
    all_digits, ascii_lower, digits_value, fields, is_digit, lower, lower_char, texts, utf8_text,
};

/// Wire prefix of every payload. The prefix alone does not activate the protocol: the
/// height gate of `LCKPROTOCOL_V1_HEIGHT` holds as well.
pub const PROTOCOL_PREFIX: &'static str = "LUCKYPROTOCOL";

/// Supply of every deployed token, in smallest units. It is implicit in a DEPLOY.
pub const REQUIRED_TOKEN_SUPPLY: u64 = 21_000_000;

/// Upper bound on the amount of a SEND: the whole supply.
pub const MAX_SEND_AMT: u64 = REQUIRED_TOKEN_SUPPLY;

/// First block height at which payloads and token spends have an effect.
pub const LCKPROTOCOL_V1_HEIGHT: u32 = 950_950;

/// Height at which a cold scan starts.
pub const LCKPROTOCOL_START_HEIGHT: u32 = LCKPROTOCOL_V1_HEIGHT;

/// Largest output index that a payload may name.
pub const MAX_OUT_IDX: u32 = 255;

/// The address that collects the protocol fees.
pub const PROJECT_FEE_ADDRESS: &'static str = "bc1pyefhtnuz2gw04fsynlsseeh847cqy20dw7yt6fnavm9fgnewcr7q88gqf3";

/// Fee of a DEPLOY in sats: some output pays exactly this to `PROJECT_FEE_ADDRESS`.
pub const DEPLOY_PROTOCOL_FEE_SATS: u64 = 5_460;

/// Fee of a MINE (also called BET) in sats, likewise exact.
pub const MINE_PROTOCOL_FEE_SATS: u64 = 546;

/// Fee of a SEND in sats, likewise exact.
pub const SEND_PROTOCOL_FEE_SATS: u64 = 546;

/// Most characters that the amount field of a SEND may have: the width of `u64::MAX`.
pub const MAX_AMOUNT_CHARS: usize = 20;

/// A decoded payload.
#[derive(Debug, PartialEq, Eq)]
pub enum ProtocolPayload {
    /// `LUCKYPROTOCOL|<tier>|<pick>|<ticker>|<win_out_idx>[|<change_out_idx>]`: a wager.
    /// A win mints its reward to output `win_out_idx`; tokens spent by the transaction
    /// move to `change_out_idx` where that is given and valid.
    Bet {
        tier: String,
        pick: String,
        ticker: String,
        win_out_idx: u32,
        change_out_idx: Option<u32>,
    },
    /// `LUCKYPROTOCOL|SEND|<ticker>|<amount>|<to_out_idx>[|<change_out_idx>]`: a transfer
    /// out of the tokens that the transaction spends.
    Xfer { ticker: String, amount: u64, to_out_idx: u32, change_out_idx: Option<u32> },
    /// `LUCKYPROTOCOL|DEPLOY|<ticker>`: registers a ticker. The first one wins.
    Deploy { ticker: String },
}

/// What a payload says, with its texts as character sequences.
pub ghost enum PayloadModel {
    Bet {
        tier: Seq<char>,
        pick: Seq<char>,
        ticker: Seq<char>,
        win_out_idx: u32,
        change_out_idx: Option<u32>,
    },
    Xfer { ticker: Seq<char>, amount: u64, to_out_idx: u32, change_out_idx: Option<u32> },
    Deploy { ticker: Seq<char> },
}

impl View for ProtocolPayload {
    type V = PayloadModel;

    open spec fn view(&self) -> PayloadModel {
        match *self {
            ProtocolPayload::Bet { tier, pick, ticker, win_out_idx, change_out_idx } =>
                PayloadModel::Bet {
                    tier: tier@,
                    pick: pick@,
                    ticker: ticker@,
                    win_out_idx,
                    change_out_idx,
                },
            ProtocolPayload::Xfer { ticker, amount, to_out_idx, change_out_idx } =>
                PayloadModel::Xfer { ticker: ticker@, amount, to_out_idx, change_out_idx },
            ProtocolPayload::Deploy { ticker } => PayloadModel::Deploy { ticker: ticker@ },
        }
    }
}

impl Clone for ProtocolPayload {
    fn clone(&self) -> (r: ProtocolPayload)
        ensures
            r@ == self@,
    {
        match self {
            ProtocolPayload::Bet { tier, pick, ticker, win_out_idx, change_out_idx } =>
                ProtocolPayload::Bet {
                    tier: tier.clone(),
                    pick: pick.clone(),
                    ticker: ticker.clone(),
                    win_out_idx: *win_out_idx,
                    change_out_idx: *change_out_idx,
                },
            ProtocolPayload::Xfer { ticker, amount, to_out_idx, change_out_idx } =>
                ProtocolPayload::Xfer {
                    ticker: ticker.clone(),
                    amount: *amount,
                    to_out_idx: *to_out_idx,
                    change_out_idx: *change_out_idx,
                },
            ProtocolPayload::Deploy { ticker } => ProtocolPayload::Deploy { ticker: ticker.clone() },
        }
    }
}

// ---------------------------------------------------------------------------
// Fields.
// ---------------------------------------------------------------------------

/// `A`..`Z` or `0`..`9`.
pub open spec fn ticker_char(c: char) -> bool {
    ('A' <= c && c <= 'Z') || is_digit(c)
}

/// One to eight capitals and digits.
pub open spec fn ticker_ok(t: Seq<char>) -> bool {
    1 <= t.len() <= 8 && forall|i: int| 0 <= i < t.len() ==> ticker_char(#[trigger] t[i])
}

/// The number that a hexadecimal digit of either case stands for.
pub open spec fn hex_digit(c: char) -> Option<u32> {
    if is_digit(c) {
        Some((c as u32 - '0' as u32) as u32)
    } else if 'a' <= c && c <= 'f' {
        Some((c as u32 - 'a' as u32 + 10) as u32)
    } else if 'A' <= c && c <= 'F' {
        Some((c as u32 - 'A' as u32 + 10) as u32)
    } else {
        None
    }
}

/// `n` hexadecimal digits.
pub open spec fn hex_text(s: Seq<char>, n: nat) -> bool {
    s.len() == n && forall|i: int| 0 <= i < s.len() ==> hex_digit(#[trigger] s[i]) is Some
}

/// Decimal digits without leading zeros; a single `0` is one.
pub open spec fn canonical_uint(s: Seq<char>) -> bool {
    s.len() > 0 && all_digits(s) && (s.len() > 1 ==> s[0] != '0')
}

/// The four wager opcodes.
pub open spec fn is_tier(t: Seq<char>) -> bool {
    t == "iron"@ || t == "bronze"@ || t == "silver"@ || t == "gold"@
}

/// The picks that a tier takes, whatever their case: `odd` or `even` on iron, and one, two
/// or three hexadecimal digits on the others.
pub open spec fn pick_ok(tier: Seq<char>, pick: Seq<char>) -> bool {
    if tier == "iron"@ {
        ascii_lower(pick) == "odd"@ || ascii_lower(pick) == "even"@
    } else if tier == "bronze"@ {
        hex_text(pick, 1)
    } else if tier == "silver"@ {
        hex_text(pick, 2)
    } else if tier == "gold"@ {
        hex_text(pick, 3)
    } else {
        false
    }
}

/// A pick that a tier takes is ASCII text.
pub proof fn lemma_picks_are_ascii(tier: Seq<char>, pick: Seq<char>)
    requires
        pick_ok(tier, pick),
    ensures
        lower(pick) == ascii_lower(pick),
{
    reveal_strlit("odd");
    reveal_strlit("even");
    let p = ascii_lower(pick);
    assert forall|i: int| 0 <= i < pick.len() implies '\0' <= #[trigger] pick[i] && pick[i]
        <= '\u{7f}' by {
        if tier == "iron"@ {
            assert(p[i] == lower_char(pick[i]));
            assert(p =~= seq!['o', 'd', 'd'] || p =~= seq!['e', 'v', 'e', 'n']);
            assert(p[i] <= 'v');
        } else {
            assert(hex_digit(pick[i]) is Some);
        }
    }
}

/// An output index: a canonical number of at most `MAX_OUT_IDX`.
pub open spec fn out_idx_of(s: Seq<char>) -> Option<u32> {
    if canonical_uint(s) && digits_value(s) <= MAX_OUT_IDX {
        Some(digits_value(s) as u32)
    } else {
        None
    }
}

/// The amount of a SEND: a canonical number of 1 to `MAX_SEND_AMT`.
pub open spec fn amount_of(s: Seq<char>) -> Option<u64> {
    if canonical_uint(s) && s.len() <= MAX_AMOUNT_CHARS && 1 <= digits_value(s) <= MAX_SEND_AMT {
        Some(digits_value(s) as u64)
    } else {
        None
    }
}

/// Whether `t` is a ticker.
pub fn valid_ticker(t: &str) -> (r: bool)
    ensures
        r == ticker_ok(t@),
{
    let chars = chars_of(t);
    if chars.len() == 0 || chars.len() > 8 {
        return false;
    }
    let mut i: usize = 0;
    while i < chars.len()
        invariant
            chars@ == t@,
            i <= chars@.len(),
            forall|j: int| 0 <= j < i ==> ticker_char(#[trigger] chars@[j]),
        decreases chars@.len() - i,
    {
        let c = chars[i];
        if !(('A' <= c && c <= 'Z') || ('0' <= c && c <= '9')) {
            assert(!ticker_char(chars@[i as int]));
            return false;
        }
        i += 1;
    }
    true
}

/// Whether `s` is a number in canonical decimal form.
pub fn is_canonical_uint(s: &str) -> (r: bool)
    ensures
        r == canonical_uint(s@),
{
    canonical_chars(&chars_of(s))
}

fn canonical_chars(chars: &[char]) -> (r: bool)
    ensures
        r == canonical_uint(chars@),
{
    if chars.len() == 0 {
        return false;
    }
    let mut i: usize = 0;
    while i < chars.len()
        invariant
            i <= chars@.len(),
            forall|j: int| 0 <= j < i ==> is_digit(#[trigger] chars@[j]),
        decreases chars@.len() - i,
    {
        let c = chars[i];
        if !('0' <= c && c <= '9') {
            assert(!is_digit(chars@[i as int]));
            return false;
        }
        i += 1;
    }
    !(chars.len() > 1 && chars[0] == '0')
}

fn hex_digit_value(c: char) -> (r: Option<u32>)
    ensures
        r == hex_digit(c),
{
    if '0' <= c && c <= '9' {
        Some(c as u32 - '0' as u32)
    } else if 'a' <= c && c <= 'f' {
        Some(c as u32 - 'a' as u32 + 10)
    } else if 'A' <= c && c <= 'F' {
        Some(c as u32 - 'A' as u32 + 10)
    } else {
        None
    }
}

fn is_hex_text(s: &str, n: usize) -> (r: bool)
    ensures
        r == hex_text(s@, n as nat),
{
    let chars = chars_of(s);
    if chars.len() != n {
        return false;
    }
    let mut i: usize = 0;
    while i < chars.len()
        invariant
            chars@ == s@,
            i <= chars@.len(),
            forall|j: int| 0 <= j < i ==> hex_digit(#[trigger] chars@[j]) is Some,
        decreases chars@.len() - i,
    {
        if hex_digit_value(chars[i]).is_none() {
            assert(hex_digit(chars@[i as int]) is None);
            return false;
        }
        i += 1;
    }
    true
}

/// Whether a tier takes `pick`.
pub fn valid_pick(tier: &str, pick: &str) -> (r: bool)
    ensures
        r == pick_ok(tier@, pick@),
{
    if same_text(tier, "iron") {
        let p = to_ascii_lower(pick);
        same_text(&p, "odd") || same_text(&p, "even")
    } else if same_text(tier, "bronze") {
        is_hex_text(pick, 1)
    } else if same_text(tier, "silver") {
        is_hex_text(pick, 2)
    } else if same_text(tier, "gold") {
        is_hex_text(pick, 3)
    } else {
        false
    }
}

fn read_out_idx(s: &str) -> (r: Option<u32>)
    ensures
        r == out_idx_of(s@),
{
    let chars = chars_of(s);
    if !canonical_chars(&chars) {
        return None;
    }
    match read_uint(&chars, MAX_OUT_IDX as u64) {
        Some(v) => Some(v as u32),
        None => None,
    }
}

fn read_amount(s: &str) -> (r: Option<u64>)
    ensures
        r == amount_of(s@),
{
    let chars = chars_of(s);
    if !canonical_chars(&chars) || chars.len() > MAX_AMOUNT_CHARS {
        return None;
    }
    match read_uint(&chars, MAX_SEND_AMT) {
        Some(v) => if v == 0 {
            None
        } else {
            Some(v)
        },
        None => None,
    }
}

// ---------------------------------------------------------------------------
// Payloads.
// ---------------------------------------------------------------------------

/// The optional index in field `i`: `None` where it is malformed, `Some(None)` where
/// there is no such field.
pub open spec fn change_field(f: Seq<Seq<char>>, i: int) -> Option<Option<u32>> {
    if f.len() <= i {
        Some(None)
    } else {
        match out_idx_of(f[i]) {
            Some(v) => Some(Some(v)),
            None => None,
        }
    }
}

/// `<prefix>|<tier>|<pick>|<ticker>|<win_out_idx>[|<change_out_idx>]`.
pub open spec fn bet_of_fields(f: Seq<Seq<char>>) -> Option<PayloadModel> {
    if 5 <= f.len() <= 6 && ticker_ok(f[3]) && pick_ok(f[1], f[2]) && out_idx_of(f[4]) is Some
        && change_field(f, 5) is Some {
        Some(
            PayloadModel::Bet {
                tier: f[1],
                pick: f[2],
                ticker: f[3],
                win_out_idx: out_idx_of(f[4])->0,
                change_out_idx: change_field(f, 5)->0,
            },
        )
    } else {
        None
    }
}

/// `<prefix>|SEND|<ticker>|<amount>|<to_out_idx>[|<change_out_idx>]`, with the two
/// indices distinct.
pub open spec fn send_of_fields(f: Seq<Seq<char>>) -> Option<PayloadModel> {
    if 5 <= f.len() <= 6 && ticker_ok(f[2]) && amount_of(f[3]) is Some && out_idx_of(f[4]) is Some
        && change_field(f, 5) is Some && change_field(f, 5)->0 != out_idx_of(f[4]) {
        Some(
            PayloadModel::Xfer {
                ticker: f[2],
                amount: amount_of(f[3])->0,
                to_out_idx: out_idx_of(f[4])->0,
                change_out_idx: change_field(f, 5)->0,
            },
        )
    } else {
        None
    }
}

/// `<prefix>|DEPLOY|<ticker>`.
pub open spec fn deploy_of_fields(f: Seq<Seq<char>>) -> Option<PayloadModel> {
    if f.len() == 3 && ticker_ok(f[2]) {
        Some(PayloadModel::Deploy { ticker: f[2] })
    } else {
        None
    }
}

/// The payload that a list of fields spells.
pub open spec fn payload_of_fields(f: Seq<Seq<char>>) -> Option<PayloadModel> {
    if f.len() < 2 || f[0] != PROTOCOL_PREFIX@ {
        None
    } else if is_tier(f[1]) {
        bet_of_fields(f)
    } else if f[1] == "SEND"@ {
        send_of_fields(f)
    } else if f[1] == "DEPLOY"@ {
        deploy_of_fields(f)
    } else {
        None
    }
}

/// The payload that pushed bytes spell.
pub open spec fn payload_of(bytes: Seq<u8>) -> Option<PayloadModel> {
    match utf8_text(bytes) {
        Some(s) => payload_of_fields(fields(s, '|')),
        None => None,
    }
}

/// An optional payload as an optional model.
pub open spec fn payload_view(p: Option<ProtocolPayload>) -> Option<PayloadModel> {
    match p {
        Some(p) => Some(p@),
        None => None,
    }
}

fn read_change(parts: &Vec<String>, i: usize) -> (r: Option<Option<u32>>)
    ensures
        r == change_field(texts(parts@), i as int),
{
    if parts.len() <= i {
        return Some(None);
    }
    match read_out_idx(&parts[i]) {
        Some(v) => Some(Some(v)),
        None => None,
    }
}

fn read_bet(parts: &Vec<String>) -> (r: Option<ProtocolPayload>)
    ensures
        payload_view(r) == bet_of_fields(texts(parts@)),
{
    if parts.len() < 5 || parts.len() > 6 {
        return None;
    }
    if !valid_ticker(&parts[3]) || !valid_pick(&parts[1], &parts[2]) {
        return None;
    }
    let win_out_idx: u32 = match read_out_idx(&parts[4]) {
        Some(v) => v,
        None => return None,
    };
    let change_out_idx = match read_change(parts, 5) {
        Some(c) => c,
        None => return None,
    };
    Some(
        ProtocolPayload::Bet {
            tier: parts[1].clone(),
            pick: parts[2].clone(),
            ticker: parts[3].clone(),
            win_out_idx,
            change_out_idx,
        },
    )
}

fn read_send(parts: &Vec<String>) -> (r: Option<ProtocolPayload>)
    ensures
        payload_view(r) == send_of_fields(texts(parts@)),
{
    if parts.len() < 5 || parts.len() > 6 {
        return None;
    }
    if !valid_ticker(&parts[2]) {
        return None;
    }
    let amount: u64 = match read_amount(&parts[3]) {
        Some(v) => v,
        None => return None,
    };
    let to_out_idx: u32 = match read_out_idx(&parts[4]) {
        Some(v) => v,
        None => return None,
    };
    let change_out_idx = match read_change(parts, 5) {
        Some(c) => c,
        None => return None,
    };
    if let Some(c) = change_out_idx {
        if c == to_out_idx {
            return None;
        }
    }
    Some(ProtocolPayload::Xfer { ticker: parts[2].clone(), amount, to_out_idx, change_out_idx })
}

fn read_deploy(parts: &Vec<String>) -> (r: Option<ProtocolPayload>)
    ensures
        payload_view(r) == deploy_of_fields(texts(parts@)),
{
    if parts.len() != 3 || !valid_ticker(&parts[2]) {
        return None;
    }
    Some(ProtocolPayload::Deploy { ticker: parts[2].clone() })
}

/// Decodes the bytes that an `OP_RETURN` output pushes (without the opcode and the push
/// prefix). `None` for anything that is not a well-formed payload.
pub fn parse_payload(bytes: &[u8]) -> (r: Option<ProtocolPayload>)
    ensures
        payload_view(r) == payload_of(bytes@),
{
    let s = match from_utf8(bytes) {
        Some(s) => s,
        None => return None,
    };
    let parts = split_fields(s, '|');
    assert(texts(parts@).len() == parts@.len());
    if parts.len() < 2 || !same_text(&parts[0], PROTOCOL_PREFIX) {
        return None;
    }
    let opcode: &str = &parts[1];
    if same_text(opcode, "iron") || same_text(opcode, "bronze") || same_text(opcode, "silver")
        || same_text(opcode, "gold") {
        read_bet(&parts)
    } else if same_text(opcode, "SEND") {
        read_send(&parts)
    } else if same_text(opcode, "DEPLOY") {
        read_deploy(&parts)
    } else {
        None
    }
}

// ---------------------------------------------------------------------------
// Settlement.
// ---------------------------------------------------------------------------

/// The reward of a tier in smallest units.
pub open spec fn reward_of(tier: Seq<char>) -> Option<u64> {
    if tier == "iron"@ {
        Some(100)
    } else if tier == "bronze"@ {
        Some(1_000)
    } else if tier == "silver"@ {
        Some(10_000)
    } else if tier == "gold"@ {
        Some(200_000)
    } else {
        None
    }
}

/// The last `k` characters of `s`; nothing where `s` is shorter.
pub open spec fn tail_of(s: Seq<char>, k: nat) -> Seq<char> {
    if s.len() < k {
        Seq::empty()
    } else {
        s.subrange(s.len() - k, s.len() as int)
    }
}

/// The face of the die that a hexadecimal digit throws.
pub open spec fn die_of(v: u32) -> int {
    v % 6 + 1
}

/// Whether `pick` wins on `tier` in the block with this hash. `None` where the tier, the
/// hash or an iron pick is no such thing. The case of the pick and of the hash plays no
/// part.
pub open spec fn hit(tier: Seq<char>, pick: Seq<char>, hash: Seq<char>) -> Option<bool> {
    if hash.len() == 0 {
        None
    } else if tier == "iron"@ {
        match hex_digit(hash.last()) {
            Some(v) => if ascii_lower(pick) == "odd"@ {
                Some(die_of(v) % 2 == 1)
            } else if ascii_lower(pick) == "even"@ {
                Some(die_of(v) % 2 == 0)
            } else {
                None
            },
            None => None,
        }
    } else if tier == "bronze"@ {
        Some(lower(pick) == tail_of(lower(hash), 1))
    } else if tier == "silver"@ {
        Some(lower(pick) == tail_of(lower(hash), 2))
    } else if tier == "gold"@ {
        Some(lower(pick) == tail_of(lower(hash), 3))
    } else {
        None
    }
}

/// The reward of a winning pick of `tier`.
pub fn tier_reward(tier: &str) -> (r: Option<u64>)
    ensures
        r == reward_of(tier@),
{
    if same_text(tier, "iron") {
        Some(100)
    } else if same_text(tier, "bronze") {
        Some(1_000)
    } else if same_text(tier, "silver") {
        Some(10_000)
    } else if same_text(tier, "gold") {
        Some(200_000)
    } else {
        None
    }
}

/// The settlement tail: the last `k` characters of a block hash in lower case.
pub fn settlement_tail(hash_n: &str, k: usize) -> (r: String)
    ensures
        r@ == ascii_lower(tail_of(hash_n@, k as nat)),
{
    to_ascii_lower(&last_chars(hash_n, k))
}

fn last_chars(hash_n: &str, k: usize) -> (r: String)
    ensures
        r@ == tail_of(hash_n@, k as nat),
{
    let chars = chars_of(hash_n);
    if chars.len() < k {
        return String::new();
    }
    let n: usize = chars.len();
    let tail = vstd::slice::slice_subrange(chars.as_slice(), n - k, n);
    text_of(tail)
}

/// Decides a wager by the hash of the block that confirms it.
pub fn is_hit(tier: &str, pick: &str, hash_n: &str) -> (r: Option<bool>)
    ensures
        r == hit(tier@, pick@, hash_n@),
{
    let chars = chars_of(hash_n);
    if chars.len() == 0 {
        return None;
    }
    if same_text(tier, "iron") {
        let v: u32 = match hex_digit_value(chars[chars.len() - 1]) {
            Some(v) => v,
            None => return None,
        };
        let die: u32 = v % 6 + 1;
        let p = to_ascii_lower(pick);
        if same_text(&p, "odd") {
            Some(die % 2 == 1)
        } else if same_text(&p, "even") {
            Some(die % 2 == 0)
        } else {
            None
        }
    } else if same_text(tier, "bronze") {
        Some(same_text(&to_lowercase(pick), &last_chars(&to_lowercase(hash_n), 1)))
    } else if same_text(tier, "silver") {
        Some(same_text(&to_lowercase(pick), &last_chars(&to_lowercase(hash_n), 2)))
    } else if same_text(tier, "gold") {
        Some(same_text(&to_lowercase(pick), &last_chars(&to_lowercase(hash_n), 3)))
    } else {
        None
    }
}

} // verus!
