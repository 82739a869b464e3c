//! What a single call answers, whatever it is asked.
use vstd::prelude::*;

verus! {

use crate::core_rpc::{
    adapt_block, is_readable_status, open_reply, BlockHeader, CoreBlockV3, RawTxStatus, RpcResponse,
    ScanTxOutResult,
};
use crate::grammar::{
    carries_payload, is_pick, is_ticker, law_digits_win_on_the_end_of_the_hash, law_grammar,
    law_payload_stands_on_the_only_data_output, law_picks, law_pushes_are_read, law_tickers, legal,
    only_data_output, pushes, same_letter,
};
use crate::indexer::{
    ends_key, key_len, lemma_ends_key_unique, lemma_first_at_unique, masked, outpoint_key,
    physical, unix_seconds, DeployView, IndexerState, Network, TxContext,
};
use crate::laws::spelled;
use crate::ledger::Text;
use crate::poller::{backfill_start, effective_start, next_retry_delay};
use crate::protocol::{
    is_canonical_uint, is_hit, is_tier, parse_payload, settlement_tail, tier_reward,
    valid_pick, valid_ticker, PayloadModel, ProtocolPayload,
};
use crate::rules::{full_reward, paid, takes_tokens};
use crate::server::{
    bet_by_txid, block_error, btc_utxos, deploys_all, first_bet, first_transfer, health, poll_now,
    token_one, tx_error, tx_status, ApiError, BtcUtxosResponse, Health, LoggedTx, PollNowResponse,
    TokenInfo, TxStatusResponse,
};
use crate::source::{
    extract_luckyprotocol_payload_from_json, parse_network, pushed_data, EsploraTxFull,
    UnsupportedNetwork,
};
use crate::text::{contains_text, first_at, lower, occurs_at};
use vstd::utf8::is_ascii_chars;

// ---------------------------------------------------------------------------
// Around the poll loop.
// ---------------------------------------------------------------------------

/// The pause before the tip is asked for again doubles, up to half a minute.
pub proof fn law_retries_back_off(delay_ms: u64, r: u64)
    requires
        call_ensures(next_retry_delay, (delay_ms,), r),
    ensures
        r <= 30_000,
        delay_ms <= 15_000 ==> r == 2 * delay_ms,
        delay_ms > 15_000 ==> r == 30_000,
{
}

/// The first scan starts at the height that is asked for, raised to the activation height
/// and lowered to the tip, and not at all while the tip is below the activation height.
pub proof fn law_first_scan_starts_where_asked(start: Option<u32>, tip: u32, r: Option<u32>)
    requires
        call_ensures(backfill_start, (start, tip), r),
    ensures
        tip < 950_950 <==> r is None,
        start matches Some(h) && 950_950 <= h <= tip ==> r == start,
        tip >= 950_950 && (start is None || start->0 < 950_950) ==> r == Some(950_950u32),
        tip >= 950_950 && start is Some && start->0 > tip ==> r == Some(tip),
{
}

/// A start goes on after the snapshot that was restored; without one it is the height that
/// is asked for.
pub proof fn law_warm_start_goes_on(warm: Option<u32>, start: Option<u32>, r: Option<u32>)
    requires
        call_ensures(effective_start, (warm, start), r),
        warm != Some(u32::MAX),
    ensures
        warm is None ==> r == start,
        warm is Some ==> r is Some && r->0 == warm->0 + 1,
{
}

/// A request to poll at once is accepted three seconds after the last one and not before;
/// one that is not accepted is told how long to wait.
pub proof fn law_polls_are_three_seconds_apart(now: u64, last: u64, r: PollNowResponse)
    requires
        call_ensures(poll_now, (now, last), r),
    ensures
        r.accepted <==> now >= last + 3,
        r.accepted ==> r.debounced_for_secs == 0,
        !r.accepted && now >= last ==> now + r.debounced_for_secs == last + 3,
        !r.accepted && now < last ==> r.debounced_for_secs == 3,
{
}

/// The clock's reading is taken as it is; without one the time is zero.
pub proof fn law_clock_reading_is_taken(reading: Option<u64>, r: u64)
    requires
        call_ensures(unix_seconds, (reading,), r),
    ensures
        reading matches Some(s) ==> r == s,
        reading is None ==> r == 0,
{
}

// ---------------------------------------------------------------------------
// The node's replies.
// ---------------------------------------------------------------------------

/// A reply is read with a status of success, or with the one that reports an error of the
/// method.
pub proof fn law_readable_replies(status: u16, r: bool)
    requires
        call_ensures(is_readable_status, (status,), r),
    ensures
        r <==> status / 100 == 2 || status == 500,
{
}

/// A reply with an error is an error, whatever else it holds; one with a result and no
/// error is that result; one with neither is an error.
pub proof fn law_replies_are_opened<T>(method: &str, reply: RpcResponse<T>, r: Result<T, String>)
    requires
        call_ensures(open_reply::<T>, (method, reply), r),
    ensures
        r is Ok <==> reply.error is None && reply.result is Some,
        r matches Ok(v) ==> reply.result == Some(v),
        reply.error is Some ==> r->Err_0@ == "core-rpc "@ + method@ + " error: "@
            + reply.error->0.message@,
        reply.error is None && reply.result is None ==> r->Err_0@ == "core-rpc "@ + method@
            + " returned neither result nor error"@,
{
}

/// A block of the node is taken over whole: its merkle root, its transactions in order, and
/// their number as the node has it, or else as they are counted.
pub proof fn law_blocks_are_taken_over(
    block: &CoreBlockV3,
    r: (Vec<EsploraTxFull>, String, u32),
    i: int,
)
    requires
        call_ensures(adapt_block, (block,), r),
    ensures
        r.0@.len() == block.tx@.len(),
        0 <= i < block.tx@.len() ==> r.0@[i]@.txid == block.tx@[i].txid@ && r.0@[i]@.vin.len()
            == block.tx@[i].vin@.len() && r.0@[i]@.vout.len() == block.tx@[i].vout@.len(),
        r.1@ == block.merkleroot@,
        block.n_tx > 0 ==> r.2 == block.n_tx,
        block.n_tx == 0 && block.tx@.len() <= u32::MAX ==> r.2 == block.tx@.len(),
{
    let all = crate::views::views(r.0@);
    assert(all.len() == r.0@.len());
    if 0 <= i < block.tx@.len() {
        assert(all[i] == r.0@[i]@);
    }
}

/// A transaction is confirmed with the first block on top of it, stands in the block that
/// the node names, and has that block's height where its header could be had.
pub proof fn law_transaction_status(
    txid: &str,
    raw: &RawTxStatus,
    header: Option<&BlockHeader>,
    r: TxStatusResponse,
)
    requires
        call_ensures(tx_status, (txid, raw, header), r),
    ensures
        r.txid@ == txid@,
        r.confirmed <==> raw.confirmations > 0,
        r.block_hash is Some <==> raw.blockhash is Some,
        raw.blockhash is Some ==> r.block_hash->0@ == raw.blockhash->0@,
        r.block_height is Some <==> raw.blockhash is Some && header is Some,
        r.block_height is Some ==> r.block_height->0 == header->0.height,
        r.block_time == raw.blocktime,
{
}

/// A text that is put together around another contains it.
pub proof fn law_texts_contain_their_parts(before: Text, part: Text, after: Text)
    ensures
        contains_text(before + part + after, part),
{
    let s = before + part + after;
    assert(s.subrange(before.len() as int, (before.len() + part.len()) as int) =~= part);
    assert(occurs_at(s, part, before.len() as int));
}

/// The node's words tell a transaction or a block that it does not know from other
/// failures.
pub proof fn law_unknown_things_are_not_found(
    message: &str,
    before: Text,
    after: Text,
    tx: ApiError,
    block: ApiError,
)
    requires
        call_ensures(tx_error, (message,), tx),
        call_ensures(block_error, (message,), block),
    ensures
        message@ == before + "No such"@ + after ==> tx == ApiError::NotFound,
        message@ == before + "not found"@ + after ==> tx == ApiError::NotFound,
        message@ == before + "invalid txid"@ + after ==> tx == ApiError::NotFound,
        message@ == before + "out of range"@ + after ==> block == ApiError::NotFound,
        message@ == before + "Block height"@ + after ==> block == ApiError::NotFound,
        tx == ApiError::NotFound ==> contains_text(message@, "No such"@) || contains_text(
            message@,
            "not found"@,
        ) || contains_text(message@, "invalid txid"@),
        block == ApiError::NotFound ==> contains_text(message@, "out of range"@) || contains_text(
            message@,
            "Block height"@,
        ),
        tx == ApiError::NotFound || tx == ApiError::BadGateway,
        block == ApiError::NotFound || block == ApiError::BadGateway,
{
    law_texts_contain_their_parts(before, "No such"@, after);
    law_texts_contain_their_parts(before, "not found"@, after);
    law_texts_contain_their_parts(before, "invalid txid"@, after);
    law_texts_contain_their_parts(before, "out of range"@, after);
    law_texts_contain_their_parts(before, "Block height"@, after);
}

/// A scan that ran to its end is answered with all that it found, in place; one that did
/// not is no answer.
pub proof fn law_unspent_outputs_are_passed_on(
    address: &str,
    scan: &ScanTxOutResult,
    r: Result<BtcUtxosResponse, ApiError>,
    i: int,
)
    requires
        call_ensures(btc_utxos, (address, scan), r),
    ensures
        r is Ok <==> scan.success,
        r matches Err(e) ==> e == ApiError::BadGateway,
        r matches Ok(a) ==> {
            &&& a.address@ == address@
            &&& a.scanned_at_height == scan.height
            &&& a.utxos@.len() == scan.unspents@.len()
            &&& 0 <= i < a.utxos@.len() ==> a.utxos@[i].txid@ == scan.unspents@[i].txid@
                && a.utxos@[i].vout == scan.unspents@[i].vout && a.utxos@[i].sats
                == scan.unspents@[i].sats && a.utxos@[i].block_height == scan.unspents@[i].height
        },
{
}

// ---------------------------------------------------------------------------
// The state.
// ---------------------------------------------------------------------------

/// The report on the indexer has its heights, counts and events as they stand.
pub proof fn law_health_report(state: &IndexerState, url: Option<&str>, now: u64, r: Health)
    requires
        call_ensures(health, (state, url, now), r),
    ensures
        r.indexed_height == state@.ledger.height,
        r.tip_height == state@.tip_height,
        r.bet_count == state@.ledger.bets.len(),
        r.transfer_count == state@.ledger.transfers.len(),
        r.deploy_count == state@.ledger.deploys.len(),
        r.token_count == state@.ledger.tokens.dom().len(),
        r.utxo_count == state@.ledger.utxos.dom().len(),
        r.address_count == state@.ledger.addrs.dom().len(),
        r.last_progress_at == state@.last_progress_at,
        r.stalled <==> state@.ledger.height < state@.tip_height && now > state@.last_progress_at
            + 120,
        r.recent_errors@.len() == state@.recent_errors.len(),
        url matches Some(u) ==> r.core_url@ == u@,
{
    assert(crate::views::views(r.recent_errors@).len() == r.recent_errors@.len());
}

/// A token is told of as it is registered, and one that is not registered is not found.
pub proof fn law_registered_tokens_are_found(
    state: &IndexerState,
    ticker: &str,
    r: Result<TokenInfo, ApiError>,
)
    requires
        call_ensures(token_one, (state, ticker), r),
    ensures
        r is Ok <==> state@.ledger.tokens.contains_key(ticker@),
        r matches Ok(t) ==> {
            let token = state@.ledger.tokens[ticker@];
            &&& t.supply == token.supply
            &&& t.minted == token.minted
            &&& t.ticker@ == token.ticker
            &&& t.deployer@ == token.deployer
            &&& t.deploy_txid@ == token.deploy_txid
            &&& t.deploy_block == token.deploy_block
        },
        r matches Err(e) ==> e == ApiError::NotFound,
{
}

/// Only the main network is known, by two names in any case.
pub proof fn law_main_network_only(s: &str, r: Result<Network, UnsupportedNetwork>)
    requires
        call_ensures(parse_network, (s,), r),
    ensures
        r is Ok <==> lower(s@) == "bitcoin"@ || lower(s@) == "mainnet"@,
        r matches Err(e) ==> e.name@ == lower(s@),
{
}

// ---------------------------------------------------------------------------
// Single entries.
// ---------------------------------------------------------------------------

/// A transaction that is found is told by the first wager that is logged of it, or by the
/// first transfer.
pub proof fn law_found_transactions_are_the_first_logged(
    state: &IndexerState,
    txid: &str,
    r: Result<LoggedTx, ApiError>,
)
    requires
        call_ensures(bet_by_txid, (state, txid), r),
    ensures
        ({
            let bets = state@.ledger.bets;
            let transfers = state@.ledger.transfers;
            &&& r matches Ok(LoggedTx::Bet(b)) ==> exists|i: int|
                0 <= i < bets.len() && (#[trigger] bets[i]) == b@ && bets[i].txid == txid@ && (
                forall|j: int| 0 <= j < i ==> (#[trigger] bets[j]).txid != txid@)
            &&& r matches Ok(LoggedTx::Transfer(t)) ==> exists|i: int|
                0 <= i < transfers.len() && (#[trigger] transfers[i]) == t@ && transfers[i].txid
                    == txid@ && (forall|j: int| 0 <= j < i ==> (#[trigger] transfers[j]).txid != txid@)
            &&& r matches Err(e) ==> e == ApiError::NotFound
        }),
{
    let bets = state@.ledger.bets;
    let transfers = state@.ledger.transfers;
    if let Ok(LoggedTx::Bet(b)) = r {
        let i = choose|i: int| first_bet(bets, txid@, i) && b@ == bets[i];
        assert(bets[i] == b@);
    }
    if let Ok(LoggedTx::Transfer(t)) = r {
        let i = choose|i: int| first_transfer(transfers, txid@, i) && t@ == transfers[i];
        assert(transfers[i] == t@);
    }
}

/// All deployments are listed, oldest first.
pub proof fn law_deployments_are_listed(state: &IndexerState, r: Vec<DeployView>, i: int)
    requires
        call_ensures(deploys_all, (state,), r),
    ensures
        r@.len() == state@.ledger.deploys.len(),
        0 <= i < r@.len() ==> r@[i]@ == state@.ledger.deploys[i],
{
    let all = crate::views::views(r@);
    assert(all.len() == r@.len());
    if 0 <= i < r@.len() {
        assert(all[i] == r@[i]@);
    }
}

/// An index counts from the first entry ever logged: the entry after `offset` evicted ones
/// is the first that is still there, and what is evicted or not yet logged is not found.
pub proof fn law_indices_count_from_the_first_entry(offset: u64, len: nat, i: nat, logical: u64)
    ensures
        i < len && logical == offset + i ==> physical(logical, offset, len) == Some(i as int),
        logical < offset ==> physical(logical, offset, len) is None,
        logical >= offset + len ==> physical(logical, offset, len) is None,
{
}

// ---------------------------------------------------------------------------
// Outputs and fees.
// ---------------------------------------------------------------------------

/// An output can be named where it exists and carries no data.
pub proof fn law_named_outputs_take_tokens(ctx: &TxContext, idx: u32, r: Option<u32>)
    requires
        call_ensures(IndexerState::validate_out_idx, (ctx, idx), r),
    ensures
        takes_tokens(ctx@, idx) ==> r == Some(idx),
        !takes_tokens(ctx@, idx) ==> r is None,
{
}

/// The fee is paid where some output pays exactly its amount to the project.
pub proof fn law_fee_is_exact(ctx: &TxContext, sats: u64, r: bool)
    requires
        call_ensures(IndexerState::has_exact_project_fee, (ctx, sats), r),
    ensures
        r <==> paid(ctx@, sats),
{
}

// ---------------------------------------------------------------------------
// Payloads.
// ---------------------------------------------------------------------------

/// Bytes are parsed as a payload where they spell one that the protocol knows, and nowhere
/// else.
pub proof fn law_parsing(bytes: &[u8], r: Option<ProtocolPayload>, p: PayloadModel)
    requires
        call_ensures(parse_payload, (bytes,), r),
    ensures
        r is Some && r->0@ == p <==> legal(p) && bytes@ == spelled(p),
{
    law_grammar(bytes@, p);
}

/// A script's data is found where it is one push, in any of the four forms.
pub proof fn law_pushed_data_is_found(script: &[u8], r: Option<&[u8]>, p: Seq<u8>)
    requires
        call_ensures(pushed_data, (script,), r),
    ensures
        r is Some && r->0@ == p <==> pushes(script@, p),
{
    law_pushes_are_read(script@, p);
}

/// A transaction's payload is found where its only data output pushes it.
pub proof fn law_payload_is_extracted(
    tx: &EsploraTxFull,
    r: Option<ProtocolPayload>,
    p: PayloadModel,
)
    requires
        call_ensures(extract_luckyprotocol_payload_from_json, (tx,), r),
    ensures
        r is Some && r->0@ == p <==> legal(p) && exists|i: int| #[trigger]
            only_data_output(tx@.vout, i) && carries_payload(tx@.vout[i], p),
{
    law_payload_stands_on_the_only_data_output(tx@, p);
}

/// Tickers and picks are told from other texts letter by letter.
pub proof fn law_fields_are_told(ticker: &str, t: bool, tier: &str, pick: &str, p: bool)
    requires
        call_ensures(valid_ticker, (ticker,), t),
        call_ensures(valid_pick, (tier, pick), p),
    ensures
        t <==> is_ticker(ticker@),
        is_tier(tier@) ==> (p <==> is_pick(tier@, pick@)),
        p ==> tier@ == "iron"@ || tier@ == "bronze"@ || tier@ == "silver"@ || tier@ == "gold"@,
{
    law_tickers(ticker@);
    if is_tier(tier@) {
        law_picks(tier@, pick@);
    }
}

/// A number is canonical where it is digits alone without a zero in front, but for a zero
/// by itself.
pub proof fn law_canonical_numbers(s: &str, r: bool)
    requires
        call_ensures(is_canonical_uint, (s,), r),
    ensures
        r <==> {
            &&& s@.len() > 0
            &&& forall|i: int| 0 <= i < s@.len() ==> '0' <= #[trigger] s@[i] <= '9'
            &&& s@[0] == '0' ==> s@.len() == 1
        },
{
    if forall|i: int| 0 <= i < s@.len() ==> '0' <= #[trigger] s@[i] <= '9' {
        assert(crate::text::all_digits(s@));
    }
    if crate::text::all_digits(s@) {
        assert forall|i: int| 0 <= i < s@.len() implies '0' <= #[trigger] s@[i] <= '9' by {
            assert(crate::text::is_digit(s@[i]));
        }
    }
}

/// The reward of a tier is the full one, and other texts have none.
pub proof fn law_tier_rewards(tier: &str, r: Option<u64>)
    requires
        call_ensures(tier_reward, (tier,), r),
    ensures
        r matches Some(n) ==> n == full_reward(tier@) && n > 0,
        r is None ==> full_reward(tier@) == 0,
{
}

/// The settlement tail is the end of the hash, letter by letter; a hash that is too short
/// has none.
pub proof fn law_settlement_tail(hash: &str, k: usize, r: String, i: int)
    requires
        call_ensures(settlement_tail, (hash, k), r),
    ensures
        hash@.len() >= k ==> r@.len() == k,
        hash@.len() < k ==> r@.len() == 0,
        hash@.len() >= k && 0 <= i < k ==> same_letter(r@[i], hash@[hash@.len() - k + i]) && !(
        'A' <= r@[i] <= 'Z'),
{
}

/// A pick of bronze, silver or gold is told a winner where the hash ends in it.
pub proof fn law_winners_are_told(tier: &str, pick: &str, hash: &str, r: Option<bool>)
    requires
        call_ensures(is_hit, (tier, pick, hash), r),
        tier@ == "bronze"@ || tier@ == "silver"@ || tier@ == "gold"@,
        is_pick(tier@, pick@),
        is_ascii_chars(hash@),
        hash@.len() >= 3,
    ensures
        r == Some(
            forall|i: int|
                0 <= i < pick@.len() ==> same_letter(
                    #[trigger] pick@[i],
                    hash@[hash@.len() - pick@.len() + i],
                ),
        ),
{
    law_digits_win_on_the_end_of_the_hash(tier@, pick@, hash@);
}

/// The key of an output is its transaction's id, a colon and its index.
pub proof fn law_outpoint_keys(txid: &str, vout: u32, r: String)
    requires
        call_ensures(outpoint_key, (txid, vout), r),
    ensures
        r@.len() > lower(txid@).len(),
        r@.take(lower(txid@).len() as int) == lower(txid@),
        r@[lower(txid@).len() as int] == ':',
        r@.skip((lower(txid@).len() + 1) as int) == crate::text::decimal(vout as nat),
{
    let t = lower(txid@);
    assert(r@.take(t.len() as int) =~= t);
    assert(r@.skip((t.len() + 1) as int) =~= crate::text::decimal(vout as nat));
}

// ---------------------------------------------------------------------------
// Secrets.
// ---------------------------------------------------------------------------

/// Of a URL with a key, what stands before the key and what follows the slash after it
/// stays, and nothing of the key does.
pub proof fn law_keys_are_masked(host: Text, key: Text, rest: Text)
    requires
        forall|j: int| 0 <= j < key.len() ==> #[trigger] key[j] != '/',
        rest.len() > 0 ==> rest[0] == '/',
        forall|j: int|
            #![trigger host[j]]
            0 <= j < host.len() ==> (host + "alchemy.com/v2/"@ + key + rest).subrange(
                j,
                j + "alchemy.com/v2/"@.len(),
            ) != "alchemy.com/v2/"@,
    ensures
        masked(host + "alchemy.com/v2/"@ + key + rest) == host + "alchemy.com/v2/"@
            + "<KEY-REDACTED>"@ + rest,
{
    let marker = "alchemy.com/v2/"@;
    let url = host + marker + key + rest;
    let at = host.len() as int;
    assert(url.subrange(at, at + marker.len()) =~= marker);
    assert forall|j: int| 0 <= j < at implies !occurs_at(url, marker, j) by {
        let c = host[j];
    }
    assert(first_at(url, marker, at));
    assert(contains_text(url, marker));
    lemma_first_at_unique(url, marker, at, choose|j: int| first_at(url, marker, j));
    let start = at + marker.len();
    let tail = url.skip(start);
    assert(tail =~= key + rest);
    assert(ends_key(tail, key.len() as int)) by {
        assert forall|j: int| 0 <= j < key.len() implies tail[j] != '/' by {
            assert(tail[j] == key[j]);
        }
    }
    lemma_ends_key_unique(tail, key.len() as int, key_len(tail));
    assert(url.take(start) =~= host + marker);
    assert(tail.skip(key.len() as int) =~= rest);
}

} // verus!
