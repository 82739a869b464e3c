//! What the HTTP API answers.
use std::collections::VecDeque;
use vstd::prelude::*;

use crate::core_rpc::{BlockHeader, RawTxStatus, ScanTxOutResult};
use crate::indexer::{
    outpoint_key, BetView, DeployView, ErrorEvent, IndexerState, RuneBalance, TokenRegistryEntry,
    TransferView, STALL_THRESHOLD_SECS,
};
use crate::order::{list_rows, Row};
use crate::strmap::{Duplicate, StrSet};
use crate::text::{
    chars_of, has_text, read_uint, same_ignoring_ascii_case, same_text, text_of, to_ascii_lower,
    to_ascii_upper,
};
use crate::views::queue_to_vec;

verus! {

use crate::indexer::{balances_of, held, lemma_take_step, StateModel};
use crate::ledger::{
    amount_in, minus, outpoint, outpoints_of, sat, Balances, BetModel, LedgerModel, Text,
    TokenModel, TransferModel,
};
use crate::order::{is_listing, listing, rows_of, RowModel};
use crate::strmap::{lists_keys, lists_set};
use crate::sums::{lemma_sum_insert, sum_over};
use crate::text::{
    ascii_lower, ascii_upper, bounded_uint, contains_text, decimal, is_digit, lemma_decimal_value, lower,
};
use crate::views::{lemma_views_push, view_option, views};

/// Rows on a page of bets, transfers or holders where the caller names no limit.
pub const DEFAULT_LIST_LIMIT: usize = 100;

/// Most rows on such a page.
pub const MAX_LIST_LIMIT: usize = 500;

/// Rows on a page of tokens where the caller names no limit.
pub const TOKENS_DEFAULT_LIMIT: usize = 10;

/// Most rows on such a page.
pub const TOKENS_MAX_LIMIT: usize = 30;

/// Seconds between accepted requests to poll at once.
pub const POLL_NOW_DEBOUNCE_SECS: u64 = 3;

/// How a request that cannot be answered is refused.
#[derive(Debug, Clone, Copy, PartialEq, Eq, Structural)]
pub enum ApiError {
    /// There is no such thing.
    NotFound,
    /// The node did not answer as it should.
    BadGateway,
}

// ---------------------------------------------------------------------------
// Pages.
// ---------------------------------------------------------------------------

/// The part of a list that a page shows.
pub open spec fn page_of<T>(s: Seq<T>, offset: nat, limit: nat) -> Seq<T> {
    let start = if offset < s.len() {
        offset as int
    } else {
        s.len() as int
    };
    let end = if start + limit < s.len() {
        start + limit
    } else {
        s.len() as int
    };
    s.subrange(start, end)
}

/// A limit between the default and the most.
pub open spec fn limit_for(asked: Option<usize>, default: usize, most: usize) -> usize {
    let limit = match asked {
        Some(n) => n,
        None => default,
    };
    if limit < most {
        limit
    } else {
        most
    }
}

fn clamp_limit(asked: Option<usize>, default: usize, most: usize) -> (r: usize)
    ensures
        r == limit_for(asked, default, most),
{
    let limit: usize = match asked {
        Some(n) => n,
        None => default,
    };
    if limit < most {
        limit
    } else {
        most
    }
}

fn offset_or_zero(asked: Option<usize>) -> (r: usize)
    ensures
        r == (match asked {
            Some(n) => n,
            None => 0,
        }),
{
    match asked {
        Some(n) => n,
        None => 0,
    }
}

/// Where a page begins and ends in a list of `len` rows.
fn page_bounds(len: usize, offset: usize, limit: usize) -> (r: (usize, usize))
    ensures
        r.0 <= r.1 <= len,
        r.0 == (if offset < len {
            offset
        } else {
            len
        }),
        r.1 == (if r.0 + limit < len {
            (r.0 + limit) as usize
        } else {
            len
        }),
{
    let start: usize = if offset < len {
        offset
    } else {
        len
    };
    let end: usize = if limit < len - start {
        start + limit
    } else {
        len
    };
    (start, end)
}

// ---------------------------------------------------------------------------
// Health.
// ---------------------------------------------------------------------------

/// The state of the indexer.
pub struct Health {
    pub network: String,
    /// Where the chain's data come from.
    pub core_url: String,
    pub indexed_height: u32,
    pub tip_height: u32,
    /// Addresses that control tokens.
    pub address_count: usize,
    /// Outputs that carry tokens.
    pub utxo_count: usize,
    pub bet_count: usize,
    pub transfer_count: usize,
    pub deploy_count: usize,
    pub token_count: usize,
    pub last_progress_at: u64,
    /// Behind the tip, and without progress for too long.
    pub stalled: bool,
    pub recent_errors: Vec<ErrorEvent>,
}

/// Behind the tip, and without progress for longer than `STALL_THRESHOLD_SECS`.
pub open spec fn is_stalled(s: StateModel, now: u64) -> bool {
    s.tip_height > s.ledger.height && minus(now, s.last_progress_at) > STALL_THRESHOLD_SECS
}

/// Reports the state of the indexer at `now`.
pub fn health(state: &IndexerState, core_url: Option<&str>, now: u64) -> (r: Health)
    ensures
        r.network@ == "bitcoin"@,
        r.core_url@ == (match core_url {
            Some(u) => u@,
            None => Seq::empty(),
        }),
        r.indexed_height == state@.ledger.height,
        r.tip_height == state@.tip_height,
        r.address_count == state@.ledger.addrs.dom().len(),
        r.utxo_count == state@.ledger.utxos.dom().len(),
        r.bet_count == state@.ledger.bets.len(),
        r.transfer_count == state@.ledger.transfers.len(),
        r.deploy_count == state@.ledger.deploys.len(),
        r.token_count == state@.ledger.tokens.dom().len(),
        r.last_progress_at == state@.last_progress_at,
        r.stalled == is_stalled(state@, now),
        views(r.recent_errors@) == state@.recent_errors,
{
    let elapsed: u64 = now.saturating_sub(state.last_progress_at);
    Health {
        network: state.network.name().to_owned(),
        core_url: match core_url {
            Some(u) => u.to_owned(),
            None => String::new(),
        },
        indexed_height: state.indexed_height,
        tip_height: state.tip_height,
        address_count: state.address_utxos.len(),
        utxo_count: state.utxo_balances.len(),
        bet_count: state.bets.len(),
        transfer_count: state.transfers.len(),
        deploy_count: state.deploys.len(),
        token_count: state.tokens.len(),
        last_progress_at: state.last_progress_at,
        stalled: state.tip_height > state.indexed_height && elapsed > STALL_THRESHOLD_SECS,
        recent_errors: queue_to_vec(&state.recent_errors),
    }
}

/// Whether a request to poll at once is accepted.
#[derive(Debug, Clone, Copy, PartialEq, Eq, Structural)]
pub struct PollNowResponse {
    pub accepted: bool,
    /// Seconds until one will be accepted.
    pub debounced_for_secs: u64,
}

/// Accepts a request to poll at once, unless one was accepted less than
/// `POLL_NOW_DEBOUNCE_SECS` ago.
pub fn poll_now(now: u64, last_accepted_at: u64) -> (r: PollNowResponse)
    ensures
        ({
            let since = minus(now, last_accepted_at);
            r == (if since < POLL_NOW_DEBOUNCE_SECS {
                PollNowResponse {
                    accepted: false,
                    debounced_for_secs: (POLL_NOW_DEBOUNCE_SECS - since) as u64,
                }
            } else {
                PollNowResponse { accepted: true, debounced_for_secs: 0 }
            })
        }),
{
    let since: u64 = now.saturating_sub(last_accepted_at);
    if since < POLL_NOW_DEBOUNCE_SECS {
        PollNowResponse { accepted: false, debounced_for_secs: POLL_NOW_DEBOUNCE_SECS - since }
    } else {
        PollNowResponse { accepted: true, debounced_for_secs: 0 }
    }
}

// ---------------------------------------------------------------------------
// Holders.
// ---------------------------------------------------------------------------

/// The addresses that hold something of a ticker.
pub open spec fn holders_of(l: LedgerModel, ticker: Text) -> Set<Text> {
    l.addrs.dom().filter(|a: Text| held(l.utxos, l.addrs[a], ticker) > 0)
}

/// What an address's outpoints hold of a ticker.
fn held_by(state: &IndexerState, set: &StrSet, ticker: &str) -> (r: u64)
    ensures
        r == sat(held(state@.ledger.utxos, set@, ticker@)),
{
    let ghost utxos = state@.ledger.utxos;
    let ghost f = |k: Text| amount_in(utxos[k].balances, ticker@) as nat;
    let n: usize = set.len();
    let ghost list = set.list();
    let mut total: u64 = 0;
    let mut i: usize = 0;
    proof {
        assert(list.take(0).to_set().intersect(utxos.dom()) =~= Set::empty());
    }
    while i < n
        invariant
            i <= n,
            n == list.len(),
            list == set.list(),
            lists_set(list, set@),
            utxos == state.utxo_balances@,
            f == (|k: Text| amount_in(utxos[k].balances, ticker@) as nat),
            total == sat(sum_over(list.take(i as int).to_set().intersect(utxos.dom()), f)),
        decreases n - i,
    {
        let key = set.member_at(i);
        let ghost before = list.take(i as int).to_set();
        let ghost after = list.take(i + 1).to_set();
        proof {
            lemma_take_step(list, i as int);
        }
        match state.utxo_balances.get(key) {
            Some(entry) => {
                let amount: u64 = match entry.balances.get(ticker) {
                    Some(a) => *a,
                    None => 0,
                };
                proof {
                    assert(after.intersect(utxos.dom()) =~= before.intersect(utxos.dom()).insert(
                        key@,
                    ));
                    lemma_sum_insert(before.intersect(utxos.dom()), f, key@);
                    assert(f(key@) == amount);
                }
                total = total.saturating_add(amount);
            },
            None => {
                assert(after.intersect(utxos.dom()) =~= before.intersect(utxos.dom()));
            },
        }
        i += 1;
    }
    proof {
        assert(list.take(n as int) =~= list);
        assert(list.to_set() =~= set@);
    }
    total
}

/// The number of addresses that hold something of a ticker.
pub fn count_holders(state: &IndexerState, ticker: &str) -> (r: usize)
    ensures
        r == holders_of(state@.ledger, ticker@).len(),
{
    let ghost l = state@.ledger;
    let ghost p = |a: Text| held(l.utxos, l.addrs[a], ticker@) > 0;
    let n: usize = state.address_utxos.len();
    let ghost keys = state.address_utxos.keys();
    let mut count: usize = 0;
    let mut i: usize = 0;
    proof {
        assert(keys.take(0).to_set().filter(p) =~= Set::empty());
    }
    while i < n
        invariant
            i <= n,
            n == keys.len(),
            keys == state.address_utxos.keys(),
            l == state@.ledger,
            lists_keys(keys, l.addrs),
            p == (|a: Text| held(l.utxos, l.addrs[a], ticker@) > 0),
            count <= i,
            count == keys.take(i as int).to_set().filter(p).len(),
            keys.take(i as int).to_set().filter(p).finite(),
        decreases n - i,
    {
        let ghost before = keys.take(i as int).to_set();
        let ghost after = keys.take(i + 1).to_set();
        proof {
            lemma_take_step(keys, i as int);
        }
        if held_by(state, state.address_utxos.value_at(i), ticker) > 0 {
            assert(after.filter(p) =~= before.filter(p).insert(keys[i as int]));
            count += 1;
        } else {
            assert(after.filter(p) =~= before.filter(p));
        }
        i += 1;
    }
    proof {
        assert(keys.take(n as int) =~= keys);
        crate::strmap::lemma_lists_keys(keys, l.addrs);
    }
    count
}

/// A holder and what it holds.
pub struct HolderInfo {
    pub address: String,
    pub balance: u64,
}

/// The holders of a ticker, a page of them.
pub struct TokenHoldersResponse {
    pub ticker: String,
    /// How many holders there are in all.
    pub total: usize,
    pub limit: usize,
    pub offset: usize,
    pub holders: Vec<HolderInfo>,
    /// Whether the ticker is registered.
    pub indexed: bool,
    pub indexed_height: u32,
    pub tip_height: u32,
}

/// One row for each holder: by balance from the largest down, and by address among
/// equals.
pub open spec fn holder_rows(l: LedgerModel, ticker: Text) -> Set<RowModel> {
    Set::new(
        |r: RowModel|
            {
                &&& holders_of(l, ticker).contains(r.key)
                &&& r.text == r.key
                &&& r.rank == u64::MAX - sat(held(l.utxos, l.addrs[r.key], ticker))
            },
    )
}

/// The holders of a ticker, largest first, as (address, balance).
pub open spec fn holder_list(l: LedgerModel, ticker: Text) -> Seq<(Text, u64)> {
    listing(holder_rows(l, ticker)).map_values(
        |r: RowModel| (r.key, (u64::MAX - r.rank) as u64),
    )
}

/// Holders as pairs.
pub open spec fn holders_view(v: Seq<HolderInfo>) -> Seq<(Text, u64)> {
    v.map_values(|h: HolderInfo| (h.address@, h.balance))
}

/// A row for each holder, in no particular order.
fn collect_holders(state: &IndexerState, ticker: &str) -> (r: Vec<Row>)
    ensures
        rows_of(r@).no_duplicates(),
        rows_of(r@).to_set() == holder_rows(state@.ledger, ticker@),
{
    let ghost l = state@.ledger;
    let n: usize = state.address_utxos.len();
    let ghost keys = state.address_utxos.keys();
    let mut out: Vec<Row> = Vec::new();
    let mut i: usize = 0;
    while i < n
        invariant
            i <= n,
            n == keys.len(),
            keys == state.address_utxos.keys(),
            l == state@.ledger,
            lists_keys(keys, l.addrs),
            rows_of(out@).no_duplicates(),
            forall|j: int|
                0 <= j < out@.len() ==> {
                    &&& holder_rows(l, ticker@).contains(#[trigger] rows_of(out@)[j])
                    &&& keys.take(i as int).contains(rows_of(out@)[j].key)
                },
            forall|r: RowModel| #[trigger]
                holder_rows(l, ticker@).contains(r) && keys.take(i as int).contains(r.key)
                    ==> rows_of(out@).contains(r),
        decreases n - i,
    {
        let ghost before = rows_of(out@);
        let ghost seen = keys.take(i as int);
        let ghost more = keys.take(i + 1);
        let ghost key = keys[i as int];
        proof {
            lemma_take_step(keys, i as int);
            assert forall|k: Text| more.contains(k) <==> seen.contains(k) || k == key by {
                assert(more.to_set().contains(k) <==> more.contains(k));
                assert(seen.to_set().contains(k) <==> seen.contains(k));
            }
            assert(!seen.contains(key)) by {
                assert(seen.to_set().contains(key) <==> seen.contains(key));
            }
        }
        let balance: u64 = held_by(state, state.address_utxos.value_at(i), ticker);
        if balance > 0 {
            let address = state.address_utxos.key_at(i);
            let row = Row { rank: u64::MAX - balance, text: address.clone(), key: address.clone() };
            proof {
                assert(rows_of(out@.push(row)) =~= before.push(row@));
                assert(holder_rows(l, ticker@).contains(row@));
                assert forall|r: RowModel| #[trigger]
                    holder_rows(l, ticker@).contains(r) && more.contains(r.key) implies before.push(
                    row@,
                ).contains(r) by {
                    if r.key == key {
                        assert(r == row@);
                        assert(before.push(row@)[before.len() as int] == r);
                    } else {
                        assert(before.contains(r));
                        let j = choose|j: int| 0 <= j < before.len() && before[j] == r;
                        assert(before.push(row@)[j] == r);
                    }
                }
            }
            out.push(row);
        } else {
            assert(!holders_of(l, ticker@).contains(key));
        }
        i += 1;
    }
    proof {
        assert(keys.take(n as int) =~= keys);
        let got = rows_of(out@);
        assert forall|r: RowModel| #[trigger] got.to_set().contains(r) <==> holder_rows(
            l,
            ticker@,
        ).contains(r) by {
            if got.contains(r) {
                let j = choose|j: int| 0 <= j < got.len() && got[j] == r;
                assert(holder_rows(l, ticker@).contains(got[j]));
            }
            if holder_rows(l, ticker@).contains(r) {
                assert(l.addrs.contains_key(r.key));
                assert(keys.contains(r.key));
            }
        }
        assert(got.to_set() =~= holder_rows(l, ticker@));
    }
    out
}

/// A page of the holders of a ticker, which is taken in any case.
pub fn token_holders(
    state: &IndexerState,
    ticker: &str,
    limit: Option<usize>,
    offset: Option<usize>,
) -> (r: TokenHoldersResponse)
    ensures
        ({
            let l = state@.ledger;
            let t = ascii_upper(ticker@);
            &&& r.ticker@ == t
            &&& is_listing(listing(holder_rows(l, t)), holder_rows(l, t))
            &&& r.total == holder_list(l, t).len()
            &&& r.limit == limit_for(limit, DEFAULT_LIST_LIMIT, MAX_LIST_LIMIT)
            &&& r.offset == (match offset {
                Some(n) => n,
                None => 0,
            })
            &&& holders_view(r.holders@) == page_of(
                holder_list(l, t),
                r.offset as nat,
                r.limit as nat,
            )
            &&& r.indexed == l.tokens.contains_key(t)
            &&& r.indexed_height == l.height
            &&& r.tip_height == state@.tip_height
        }),
{
    let limit: usize = clamp_limit(limit, DEFAULT_LIST_LIMIT, MAX_LIST_LIMIT);
    let offset: usize = offset_or_zero(offset);
    let lookup = to_ascii_upper(ticker);
    let ghost l = state@.ledger;
    let rows = list_rows(collect_holders(state, &lookup));
    let ghost list = holder_list(l, lookup@);
    let total: usize = rows.len();
    assert(list.len() == total);
    let bounds: (usize, usize) = page_bounds(total, offset, limit);
    let mut holders: Vec<HolderInfo> = Vec::new();
    let mut i: usize = bounds.0;
    while i < bounds.1
        invariant
            bounds.0 <= i <= bounds.1 <= rows@.len(),
            list == rows_of(rows@).map_values(|r: RowModel| (r.key, (u64::MAX - r.rank) as u64)),
            holders_view(holders@) == list.subrange(bounds.0 as int, i as int),
        decreases bounds.1 - i,
    {
        let ghost before = holders@;
        let row = &rows[i];
        let info = HolderInfo { address: row.key.clone(), balance: u64::MAX - row.rank };
        holders.push(info);
        proof {
            assert(holders_view(holders@) =~= holders_view(before).push((info.address@, info.balance)));
            assert(list[i as int] == (info.address@, info.balance));
            assert(list.subrange(bounds.0 as int, i + 1) =~= list.subrange(
                bounds.0 as int,
                i as int,
            ).push(list[i as int]));
        }
        i += 1;
    }
    proof {
        assert(holders_view(holders@) =~= page_of(list, offset as nat, limit as nat));
    }
    let indexed = state.tokens.contains_key(&lookup);
    TokenHoldersResponse {
        ticker: lookup,
        total,
        limit,
        offset,
        holders,
        indexed,
        indexed_height: state.indexed_height,
        tip_height: state.tip_height,
    }
}

// ---------------------------------------------------------------------------
// Tokens.
// ---------------------------------------------------------------------------

/// A registered token and how many hold it.
pub struct TokenInfo {
    pub ticker: String,
    pub supply: u64,
    pub minted: u64,
    pub holders: usize,
    pub deployer: String,
    pub deploy_txid: String,
    pub deploy_block: u32,
}

/// A token and how many hold it.
pub ghost struct TokenInfoModel {
    pub token: TokenModel,
    pub holders: nat,
}

impl View for TokenInfo {
    type V = TokenInfoModel;

    open spec fn view(&self) -> TokenInfoModel {
        TokenInfoModel {
            token: TokenModel {
                ticker: self.ticker@,
                supply: self.supply,
                minted: self.minted,
                deployer: self.deployer@,
                deploy_txid: self.deploy_txid@,
                deploy_block: self.deploy_block,
            },
            holders: self.holders as nat,
        }
    }
}

/// The tokens, a page of them.
pub struct TokensPage {
    pub total: usize,
    pub offset: usize,
    pub limit: usize,
    pub items: Vec<TokenInfo>,
}

/// One row for each token: by the block of its deployment, and by ticker among equals.
pub open spec fn token_rows(tokens: Map<Text, TokenModel>) -> Set<RowModel> {
    Set::new(
        |r: RowModel|
            {
                &&& tokens.contains_key(r.key)
                &&& r.text == tokens[r.key].ticker
                &&& r.rank == tokens[r.key].deploy_block
            },
    )
}

/// What is told of a token.
pub open spec fn info_of(l: LedgerModel, token: TokenModel) -> TokenInfoModel {
    TokenInfoModel { token, holders: holders_of(l, token.ticker).len() }
}

/// The tokens in order of deployment.
pub open spec fn token_list(l: LedgerModel) -> Seq<TokenInfoModel> {
    listing(token_rows(l.tokens)).map_values(|r: RowModel| info_of(l, l.tokens[r.key]))
}

/// The limit of a page of tokens: at least one.
pub open spec fn token_limit(asked: Option<usize>) -> usize {
    let limit = limit_for(asked, TOKENS_DEFAULT_LIMIT, TOKENS_MAX_LIMIT);
    if limit == 0 {
        1
    } else {
        limit
    }
}

fn token_info(state: &IndexerState, token: &TokenRegistryEntry) -> (r: TokenInfo)
    ensures
        r@ == info_of(state@.ledger, token@),
{
    TokenInfo {
        ticker: token.ticker.clone(),
        supply: token.supply,
        minted: token.minted,
        holders: count_holders(state, &token.ticker),
        deployer: token.deployer.clone(),
        deploy_txid: token.deploy_txid.clone(),
        deploy_block: token.deploy_block,
    }
}

/// A row for each token, in no particular order.
fn collect_tokens(state: &IndexerState) -> (r: Vec<Row>)
    ensures
        rows_of(r@).no_duplicates(),
        rows_of(r@).to_set() == token_rows(state@.ledger.tokens),
        r@.len() == state@.ledger.tokens.dom().len(),
{
    let ghost tokens = state@.ledger.tokens;
    let n: usize = state.tokens.len();
    let ghost keys = state.tokens.keys();
    let mut out: Vec<Row> = Vec::new();
    let mut i: usize = 0;
    while i < n
        invariant
            i <= n,
            n == keys.len(),
            keys == state.tokens.keys(),
            tokens == state.tokens@,
            lists_keys(keys, tokens),
            out@.len() == i,
            forall|j: int|
                0 <= j < i ==> {
                    &&& token_rows(tokens).contains(#[trigger] rows_of(out@)[j])
                    &&& rows_of(out@)[j].key == keys[j]
                },
        decreases n - i,
    {
        let ghost before = rows_of(out@);
        let token = state.tokens.value_at(i);
        let row = Row {
            rank: token.deploy_block as u64,
            text: token.ticker.clone(),
            key: state.tokens.key_at(i).clone(),
        };
        assert(rows_of(out@.push(row)) =~= before.push(row@));
        out.push(row);
        i += 1;
    }
    proof {
        let got = rows_of(out@);
        assert forall|r: RowModel| #[trigger] got.to_set().contains(r) <==> token_rows(
            tokens,
        ).contains(r) by {
            if got.contains(r) {
                let j = choose|j: int| 0 <= j < got.len() && got[j] == r;
                assert(token_rows(tokens).contains(got[j]));
            }
            if token_rows(tokens).contains(r) {
                assert(keys.contains(r.key));
                let j = choose|j: int| 0 <= j < keys.len() && keys[j] == r.key;
                assert(got[j] == r);
            }
        }
        assert(got.to_set() =~= token_rows(tokens));
        assert forall|i: int, j: int| 0 <= i < got.len() && 0 <= j < got.len() && i != j implies got[i]
            != got[j] by {
            assert(keys[i] != keys[j]);
        }
    }
    out
}

/// A page of the registry, in order of deployment.
pub fn tokens_all(state: &IndexerState, offset: Option<usize>, limit: Option<usize>) -> (r: TokensPage)
    ensures
        r.total == state@.ledger.tokens.dom().len(),
        r.limit == token_limit(limit),
        r.offset == (match offset {
            Some(n) => n,
            None => 0,
        }),
        is_listing(
            listing(token_rows(state@.ledger.tokens)),
            token_rows(state@.ledger.tokens),
        ),
        views(r.items@) == page_of(token_list(state@.ledger), r.offset as nat, r.limit as nat),
{
    let mut limit: usize = clamp_limit(limit, TOKENS_DEFAULT_LIMIT, TOKENS_MAX_LIMIT);
    if limit == 0 {
        limit = 1;
    }
    let offset: usize = offset_or_zero(offset);
    let ghost l = state@.ledger;
    let unsorted = collect_tokens(state);
    let total: usize = unsorted.len();
    let rows = list_rows(unsorted);
    let ghost list = token_list(l);
    let bounds: (usize, usize) = page_bounds(rows.len(), offset, limit);
    let mut items: Vec<TokenInfo> = Vec::new();
    let mut i: usize = bounds.0;
    while i < bounds.1
        invariant
            bounds.0 <= i <= bounds.1 <= rows@.len(),
            l == state@.ledger,
            is_listing(rows_of(rows@), token_rows(l.tokens)),
            list == rows_of(rows@).map_values(|r: RowModel| info_of(l, l.tokens[r.key])),
            views(items@) == list.subrange(bounds.0 as int, i as int),
        decreases bounds.1 - i,
    {
        let ghost before = items@;
        let row = &rows[i];
        proof {
            assert(rows_of(rows@)[i as int] == row@);
            assert(rows_of(rows@).contains(row@));
            assert(token_rows(l.tokens).contains(row@));
        }
        if let Some(token) = state.tokens.get(&row.key) {
            let info = token_info(state, token);
            items.push(info);
            proof {
                lemma_views_push(before, info);
                assert(list[i as int] == info@);
                assert(list.subrange(bounds.0 as int, i + 1) =~= list.subrange(
                    bounds.0 as int,
                    i as int,
                ).push(list[i as int]));
            }
        }
        i += 1;
    }
    proof {
        assert(views(items@) =~= page_of(list, offset as nat, limit as nat));
    }
    TokensPage { total, offset, limit, items }
}

/// One token of the registry.
pub fn token_one(state: &IndexerState, ticker: &str) -> (r: Result<TokenInfo, ApiError>)
    ensures
        match r {
            Ok(info) => {
                &&& state@.ledger.tokens.contains_key(ticker@)
                &&& info@ == info_of(state@.ledger, state@.ledger.tokens[ticker@])
            },
            Err(e) => !state@.ledger.tokens.contains_key(ticker@) && e == ApiError::NotFound,
        },
{
    match state.tokens.get(ticker) {
        Some(token) => Ok(token_info(state, token)),
        None => Err(ApiError::NotFound),
    }
}

// ---------------------------------------------------------------------------
// Logs.
// ---------------------------------------------------------------------------

/// The entries that pass, newest first, of a log whose newest entry is its last.
pub open spec fn newest_first<T>(log: Seq<T>, pass: spec_fn(T) -> bool) -> Seq<T>
    decreases log.len(),
{
    if log.len() == 0 {
        Seq::empty()
    } else {
        let later = newest_first(log.skip(1), pass);
        if pass(log[0]) {
            later.push(log[0])
        } else {
            later
        }
    }
}

/// The entries that pass, in the log's order.
pub open spec fn passing<T>(log: Seq<T>, pass: spec_fn(T) -> bool) -> Seq<T>
    decreases log.len(),
{
    if log.len() == 0 {
        Seq::empty()
    } else {
        let earlier = passing(log.drop_last(), pass);
        if pass(log.last()) {
            earlier.push(log.last())
        } else {
            earlier
        }
    }
}

/// A filter passes: there is none, or the ticker is the one asked for, in any case.
pub open spec fn ticker_passes(asked: Option<Text>, ticker: Text) -> bool {
    match asked {
        Some(t) => ascii_lower(ticker) == ascii_lower(ascii_upper(t)),
        None => true,
    }
}

/// A filter passes: there is none, or the tier is the one asked for.
pub open spec fn tier_passes(asked: Option<Text>, tier: Text) -> bool {
    match asked {
        Some(t) => tier == ascii_lower(t),
        None => true,
    }
}

/// Which wagers are listed.
pub open spec fn bet_filter(tier: Option<Text>, ticker: Option<Text>) -> spec_fn(BetModel) -> bool {
    |b: BetModel| tier_passes(tier, b.tier) && ticker_passes(ticker, b.ticker)
}

/// Which transfers are listed.
pub open spec fn transfer_filter(ticker: Option<Text>) -> spec_fn(TransferModel) -> bool {
    |t: TransferModel| ticker_passes(ticker, t.ticker)
}

/// Wagers, a page of them.
pub struct GlobalBetsResponse {
    /// How many pass the filters in all.
    pub total: usize,
    pub limit: usize,
    pub offset: usize,
    pub bets: Vec<BetView>,
}

/// Transfers, a page of them.
pub struct GlobalTransfersResponse {
    /// How many pass the filter in all.
    pub total: usize,
    pub limit: usize,
    pub offset: usize,
    pub transfers: Vec<TransferView>,
}

/// An optional text as characters.
pub open spec fn asked_text(o: Option<&str>) -> Option<Text> {
    match o {
        Some(s) => Some(s@),
        None => None,
    }
}

fn passes_ticker(asked: Option<&str>, ticker: &str) -> (r: bool)
    ensures
        r == ticker_passes(asked_text(asked), ticker@),
{
    match asked {
        Some(t) => same_ignoring_ascii_case(ticker, &to_ascii_upper(t)),
        None => true,
    }
}

fn passes_tier(asked: Option<&str>, tier: &str) -> (r: bool)
    ensures
        r == tier_passes(asked_text(asked), tier@),
{
    match asked {
        Some(t) => same_text(tier, &to_ascii_lower(t)),
        None => true,
    }
}

/// One more entry at the end of a list is one more on its page, if the page is reached
/// and not full.
proof fn lemma_page_push<T>(s: Seq<T>, x: T, offset: nat, limit: nat)
    ensures
        page_of(s, offset, limit).len() <= limit,
        page_of(s.push(x), offset, limit) == (if s.len() >= offset && page_of(s, offset, limit).len()
            < limit {
            page_of(s, offset, limit).push(x)
        } else {
            page_of(s, offset, limit)
        }),
{
    let before = page_of(s, offset, limit);
    let after = page_of(s.push(x), offset, limit);
    if s.len() >= offset && before.len() < limit {
        assert(after =~= before.push(x));
    } else {
        assert(after =~= before);
    }
}

/// Of the entries that pass, newest first: how many there are, and a page of them.
fn page_newest_first<T: Duplicate, F: Fn(&T) -> bool>(
    log: &VecDeque<T>,
    passes: F,
    offset: usize,
    limit: usize,
    Ghost(pass): Ghost<spec_fn(T::V) -> bool>,
) -> (r: (usize, Vec<T>))
    requires
        forall|x: &T| #[trigger] passes.requires((x,)),
        forall|x: &T, b: bool| #[trigger] passes.ensures((x,), b) ==> b == pass(x@),
    ensures
        r.0 == newest_first(views(log@), pass).len(),
        views(r.1@) == page_of(newest_first(views(log@), pass), offset as nat, limit as nat),
{
    let ghost all = views(log@);
    let mut total: usize = 0;
    let mut page: Vec<T> = Vec::new();
    let n: usize = log.len();
    let mut i: usize = n;
    proof {
        assert(all.skip(all.len() as int) =~= Seq::empty());
        assert(views(page@) =~= page_of(newest_first(all.skip(i as int), pass), offset as nat, limit as nat));
    }
    while i > 0
        invariant
            i <= all.len(),
            all == views(log@),
            forall|x: &T| #[trigger] passes.requires((x,)),
            forall|x: &T, b: bool| #[trigger] passes.ensures((x,), b) ==> b == pass(x@),
            n == all.len(),
            total <= n - i,
            total == newest_first(all.skip(i as int), pass).len(),
            views(page@) == page_of(
                newest_first(all.skip(i as int), pass),
                offset as nat,
                limit as nat,
            ),
        decreases i,
    {
        let ghost later = newest_first(all.skip(i as int), pass);
        let ghost shown = page@;
        i -= 1;
        proof {
            assert(all.skip(i as int).skip(1) =~= all.skip(i + 1));
            assert(all.skip(i as int)[0] == log@[i as int]@);
        }
        let entry = &log[i];
        if passes(entry) {
            proof {
                lemma_page_push(later, entry@, offset as nat, limit as nat);
            }
            if total >= offset && page.len() < limit {
                let copy = entry.duplicate();
                page.push(copy);
                proof {
                    lemma_views_push(shown, copy);
                }
            }
            total += 1;
        }
    }
    assert(all.skip(0) =~= all);
    (total, page)
}

/// The entries that pass, in the log's order.
fn copy_passing<T: Duplicate, F: Fn(&T) -> bool>(
    log: &VecDeque<T>,
    passes: F,
    Ghost(pass): Ghost<spec_fn(T::V) -> bool>,
) -> (r: Vec<T>)
    requires
        forall|x: &T| #[trigger] passes.requires((x,)),
        forall|x: &T, b: bool| #[trigger] passes.ensures((x,), b) ==> b == pass(x@),
    ensures
        views(r@) == passing(views(log@), pass),
{
    let ghost all = views(log@);
    let mut out: Vec<T> = Vec::new();
    let mut i: usize = 0;
    proof {
        assert(all.take(0) =~= Seq::empty());
        assert(views(out@) =~= Seq::empty());
    }
    while i < log.len()
        invariant
            i <= all.len(),
            all == views(log@),
            forall|x: &T| #[trigger] passes.requires((x,)),
            forall|x: &T, b: bool| #[trigger] passes.ensures((x,), b) ==> b == pass(x@),
            views(out@) == passing(all.take(i as int), pass),
        decreases all.len() - i,
    {
        let ghost before = out@;
        proof {
            assert(all.take(i + 1).drop_last() =~= all.take(i as int));
            assert(all.take(i + 1).last() == log@[i as int]@);
        }
        let entry = &log[i];
        if passes(entry) {
            let copy = entry.duplicate();
            out.push(copy);
            proof {
                lemma_views_push(before, copy);
            }
        }
        i += 1;
    }
    assert(all.take(all.len() as int) =~= all);
    out
}

/// A page of the wagers, newest first, that pass the filters.
pub fn bets_all(
    state: &IndexerState,
    limit: Option<usize>,
    offset: Option<usize>,
    tier: Option<&str>,
    ticker: Option<&str>,
) -> (r: GlobalBetsResponse)
    ensures
        ({
            let all = newest_first(
                state@.ledger.bets,
                bet_filter(asked_text(tier), asked_text(ticker)),
            );
            &&& r.total == all.len()
            &&& r.limit == limit_for(limit, DEFAULT_LIST_LIMIT, MAX_LIST_LIMIT)
            &&& r.offset == (match offset {
                Some(n) => n,
                None => 0,
            })
            &&& views(r.bets@) == page_of(all, r.offset as nat, r.limit as nat)
        }),
{
    let limit: usize = clamp_limit(limit, DEFAULT_LIST_LIMIT, MAX_LIST_LIMIT);
    let offset: usize = offset_or_zero(offset);
    let ghost pass = bet_filter(asked_text(tier), asked_text(ticker));
    let passes = |b: &BetView| -> (r: bool)
        ensures
            r == pass(b@),
        { passes_tier(tier, &b.tier) && passes_ticker(ticker, &b.ticker) };
    let (total, bets) = page_newest_first(&state.bets, passes, offset, limit, Ghost(pass));
    GlobalBetsResponse { total, limit, offset, bets }
}

/// A page of the transfers, newest first, that pass the filter.
pub fn transfers_all(
    state: &IndexerState,
    limit: Option<usize>,
    offset: Option<usize>,
    ticker: Option<&str>,
) -> (r: GlobalTransfersResponse)
    ensures
        ({
            let all = newest_first(state@.ledger.transfers, transfer_filter(asked_text(ticker)));
            &&& r.total == all.len()
            &&& r.limit == limit_for(limit, DEFAULT_LIST_LIMIT, MAX_LIST_LIMIT)
            &&& r.offset == (match offset {
                Some(n) => n,
                None => 0,
            })
            &&& views(r.transfers@) == page_of(all, r.offset as nat, r.limit as nat)
        }),
{
    let limit: usize = clamp_limit(limit, DEFAULT_LIST_LIMIT, MAX_LIST_LIMIT);
    let offset: usize = offset_or_zero(offset);
    let ghost pass = transfer_filter(asked_text(ticker));
    let passes = |t: &TransferView| -> (r: bool)
        ensures
            r == pass(t@),
        { passes_ticker(ticker, &t.ticker) };
    let (total, transfers) = page_newest_first(
        &state.transfers,
        passes,
        offset,
        limit,
        Ghost(pass),
    );
    GlobalTransfersResponse { total, limit, offset, transfers }
}

/// The deployments, oldest first.
pub fn deploys_all(state: &IndexerState) -> (r: Vec<DeployView>)
    ensures
        views(r@) == state@.ledger.deploys,
{
    queue_to_vec(&state.deploys)
}

// ---------------------------------------------------------------------------
// Addresses.
// ---------------------------------------------------------------------------

/// A wager was sent by the address.
pub open spec fn sent_by(address: Text) -> spec_fn(BetModel) -> bool {
    |b: BetModel| b.sender == address
}

/// A transfer was sent by the address, or went to an output that the address controls
/// and that still carries tokens.
pub open spec fn involves(l: LedgerModel, address: Text) -> spec_fn(TransferModel) -> bool {
    |t: TransferModel|
        t.sender == address || {
            let key = outpoint(t.txid, t.to_out_idx);
            l.utxos.contains_key(key) && l.utxos[key].address == Some(address)
        }
}

fn transfer_involves(state: &IndexerState, t: &TransferView, address: &str) -> (r: bool)
    ensures
        r == involves(state@.ledger, address@)(t@),
{
    if same_text(&t.sender, address) {
        return true;
    }
    match state.utxo_balances.get(&outpoint_key(&t.txid, t.to_out_idx)) {
        Some(entry) => match &entry.address {
            Some(a) => same_text(a, address),
            None => false,
        },
        None => false,
    }
}

/// The wagers that an address sent.
pub fn bets_for_address(state: &IndexerState, address: &str) -> (r: Vec<BetView>)
    ensures
        views(r@) == passing(state@.ledger.bets, sent_by(address@)),
{
    let ghost pass = sent_by(address@);
    let passes = |b: &BetView| -> (r: bool)
        ensures
            r == pass(b@),
        { same_text(&b.sender, address) };
    copy_passing(&state.bets, passes, Ghost(pass))
}

/// The transfers that an address sent or received.
pub fn transfers_for_address(state: &IndexerState, address: &str) -> (r: Vec<TransferView>)
    ensures
        views(r@) == passing(state@.ledger.transfers, involves(state@.ledger, address@)),
{
    let ghost pass = involves(state@.ledger, address@);
    let passes = |t: &TransferView| -> (r: bool)
        ensures
            r == pass(t@),
        { transfer_involves(state, t, address) };
    copy_passing(&state.transfers, passes, Ghost(pass))
}

/// What an address holds, and how often it is in the logs.
pub struct AddressResponse {
    pub address: String,
    pub balances: RuneBalance,
    pub bet_count: usize,
    pub transfer_count: usize,
}

/// What an address holds, and how often it is in the logs.
pub fn balances(state: &IndexerState, address: &str) -> (r: AddressResponse)
    ensures
        r.address@ == address@,
        r.balances@ == balances_of(
            state@.ledger.utxos,
            outpoints_of(state@.ledger.addrs, address@),
        ),
        r.bet_count == passing(state@.ledger.bets, sent_by(address@)).len(),
        r.transfer_count == passing(
            state@.ledger.transfers,
            involves(state@.ledger, address@),
        ).len(),
{
    let bets = bets_for_address(state, address);
    let transfers = transfers_for_address(state, address);
    proof {
        assert(views(bets@).len() == bets@.len());
        assert(views(transfers@).len() == transfers@.len());
    }
    AddressResponse {
        address: address.to_owned(),
        balances: state.address_balances(address),
        bet_count: bets.len(),
        transfer_count: transfers.len(),
    }
}

/// An output of an address, and the tokens that it carries.
pub struct UtxoBalanceEntry {
    pub txid: String,
    pub vout: u32,
    pub balances: RuneBalance,
}

/// An output and its tokens.
#[verifier::ext_equal]
pub ghost struct UtxoBalanceModel {
    pub txid: Text,
    pub vout: u32,
    pub balances: Balances,
}

impl View for UtxoBalanceEntry {
    type V = UtxoBalanceModel;

    open spec fn view(&self) -> UtxoBalanceModel {
        UtxoBalanceModel { txid: self.txid@, vout: self.vout, balances: self.balances@ }
    }
}

/// The position of the first colon of a key.
pub open spec fn first_colon(key: Text, i: int) -> bool {
    0 <= i < key.len() && key[i] == ':' && forall|j: int| 0 <= j < i ==> key[j] != ':'
}

/// An index as a key has it; a plus sign before it is passed over.
pub open spec fn vout_of(s: Text) -> Option<nat> {
    if s.len() > 0 && s[0] == '+' {
        bounded_uint(s.skip(1), u32::MAX as nat)
    } else {
        bounded_uint(s, u32::MAX as nat)
    }
}

/// The transaction id and the index that a key is made of: what stands before and after
/// its first colon.
pub open spec fn outpoint_of(key: Text) -> Option<(Text, u32)> {
    if exists|i: int| first_colon(key, i) {
        let i = choose|i: int| first_colon(key, i);
        match vout_of(key.skip(i + 1)) {
            Some(v) => Some((key.take(i), v as u32)),
            None => None,
        }
    } else {
        None
    }
}

/// Takes a key apart.
pub fn split_outpoint(key: &str) -> (r: Option<(String, u32)>)
    ensures
        (match r {
            Some((t, v)) => Some((t@, v)),
            None => None,
        }) == outpoint_of(key@),
{
    let chars = chars_of(key);
    let n: usize = chars.len();
    let mut i: usize = 0;
    while i < n && chars[i] != ':'
        invariant
            i <= n,
            n == chars@.len(),
            forall|j: int| 0 <= j < i ==> chars@[j] != ':',
        ensures
            i <= n,
            forall|j: int| 0 <= j < i ==> chars@[j] != ':',
            i < n ==> chars@[i as int] == ':',
        decreases n - i,
    {
        i += 1;
    }
    if i == n {
        assert(forall|k: int| !first_colon(key@, k));
        return None;
    }
    proof {
        assert(first_colon(key@, i as int));
        let c = choose|c: int| first_colon(key@, c);
        assert(first_colon(key@, c));
        assert(c == i);
    }
    let rest = vstd::slice::slice_subrange(chars.as_slice(), i + 1, n);
    assert(rest@ =~= key@.skip(i + 1));
    let digits = if rest.len() > 0 && rest[0] == '+' {
        let d = vstd::slice::slice_subrange(rest, 1, rest.len());
        assert(d@ =~= rest@.skip(1));
        d
    } else {
        rest
    };
    match read_uint(digits, u32::MAX as u64) {
        Some(v) => {
            let txid = text_of(vstd::slice::slice_subrange(chars.as_slice(), 0, i));
            assert(txid@ =~= key@.take(i as int));
            Some((txid, v as u32))
        },
        None => None,
    }
}

/// An outpoint is shown: it is held, some amount on it is not zero, and its key can be
/// taken apart.
pub open spec fn shown(l: LedgerModel, key: Text) -> bool {
    &&& l.utxos.contains_key(key)
    &&& exists|t: Text| #[trigger]
        l.utxos[key].balances.contains_key(t) && l.utxos[key].balances[t] > 0
    &&& outpoint_of(key) is Some
}

/// What is shown of an outpoint.
pub open spec fn entry_for(l: LedgerModel, key: Text) -> UtxoBalanceModel {
    let parts = outpoint_of(key)->0;
    UtxoBalanceModel { txid: parts.0, vout: parts.1, balances: l.utxos[key].balances }
}

/// The outpoints of an address that are shown.
pub open spec fn shown_outpoints(l: LedgerModel, address: Text) -> Set<Text> {
    outpoints_of(l.addrs, address).filter(|k: Text| shown(l, k))
}

/// `entries` has one entry for each outpoint in `keys`, in some order.
pub open spec fn entries_for(
    l: LedgerModel,
    entries: Seq<UtxoBalanceModel>,
    keys: Set<Text>,
) -> bool {
    exists|order: Seq<Text>|
        {
            &&& #[trigger] lists_set(order, keys)
            &&& entries == order.map_values(|k: Text| entry_for(l, k))
        }
}

fn has_amount(b: &RuneBalance) -> (r: bool)
    ensures
        r == (exists|t: Text| #[trigger] b@.contains_key(t) && b@[t] > 0),
{
    let n: usize = b.len();
    let ghost keys = b.keys();
    let mut i: usize = 0;
    while i < n
        invariant
            i <= n,
            n == keys.len(),
            keys == b.keys(),
            lists_keys(keys, b@),
            forall|j: int| 0 <= j < i ==> b@[#[trigger] keys[j]] == 0,
        decreases n - i,
    {
        if *b.value_at(i) > 0 {
            assert(b@.contains_key(keys[i as int]));
            return true;
        }
        i += 1;
    }
    proof {
        assert forall|t: Text| #[trigger] b@.contains_key(t) implies b@[t] == 0 by {
            assert(keys.contains(t));
        }
    }
    false
}

/// The outputs that an address controls and that carry tokens, in no particular order.
pub fn utxos_for_address(state: &IndexerState, address: &str) -> (r: Vec<UtxoBalanceEntry>)
    ensures
        entries_for(
            state@.ledger,
            views(r@),
            shown_outpoints(state@.ledger, address@),
        ),
{
    let ghost l = state@.ledger;
    let mut out: Vec<UtxoBalanceEntry> = Vec::new();
    let ghost mut order: Seq<Text> = Seq::empty();
    if let Some(set) = state.address_utxos.get(address) {
        let n: usize = set.len();
        let ghost list = set.list();
        let mut i: usize = 0;
        assert(views(out@) =~= order.map_values(|k: Text| entry_for(l, k)));
        while i < n
            invariant
                i <= n,
                n == list.len(),
                list == set.list(),
                lists_set(list, set@),
                l == state@.ledger,
                order.no_duplicates(),
                forall|j: int|
                    0 <= j < order.len() ==> list.take(i as int).contains(#[trigger] order[j]) && shown(
                        l,
                        order[j],
                    ),
                forall|k: Text| #[trigger]
                    list.take(i as int).contains(k) && shown(l, k) ==> order.contains(k),
                views(out@) == order.map_values(|k: Text| entry_for(l, k)),
            decreases n - i,
        {
            let key = set.member_at(i);
            let ghost seen = list.take(i as int);
            let ghost more = list.take(i + 1);
            proof {
                lemma_take_step(list, i as int);
                assert forall|k: Text| #[trigger] more.contains(k) <==> seen.contains(k) || k == key@ by {
                    assert(more.to_set().contains(k) <==> more.contains(k));
                    assert(seen.to_set().contains(k) <==> seen.contains(k));
                }
                assert(!seen.contains(key@)) by {
                    assert(seen.to_set().contains(key@) <==> seen.contains(key@));
                }
            }
            if let Some(entry) = state.utxo_balances.get(key) {
                if has_amount(&entry.balances) {
                    if let Some((txid, vout)) = split_outpoint(key) {
                        let ghost before = out@;
                        let ghost prev = order;
                        let item = UtxoBalanceEntry {
                            txid,
                            vout,
                            balances: entry.balances.duplicate(),
                        };
                        out.push(item);
                        proof {
                            order = order.push(key@);
                            lemma_views_push(before, item);
                            assert(item@ == entry_for(l, key@));
                            assert(views(out@) =~= order.map_values(|k: Text| entry_for(l, k)));
                            assert forall|k: Text| prev.contains(k) implies order.contains(k) by {
                                let j = choose|j: int| 0 <= j < prev.len() && prev[j] == k;
                                assert(order[j] == k);
                            }
                            assert(order[prev.len() as int] == key@);
                        }
                    }
                }
            }
            i += 1;
        }
        proof {
            assert(list.take(n as int) =~= list);
            assert forall|k: Text| #[trigger]
                shown_outpoints(l, address@).contains(k) implies order.contains(k) by {
                assert(set@.contains(k));
                assert(list.contains(k));
            }
            assert forall|j: int| 0 <= j < order.len() implies shown_outpoints(l, address@).contains(
                #[trigger] order[j],
            ) by {
                assert(list.contains(order[j]));
                let m = choose|m: int| 0 <= m < list.len() && list[m] == order[j];
                assert(set@.contains(list[m]));
            }
        }
    }
    proof {
        assert(views(out@) =~= order.map_values(|k: Text| entry_for(l, k)));
        assert(lists_set(order, shown_outpoints(l, address@)));
    }
    out
}

/// Taking the key of an output apart gives the output back, unless its transaction id
/// has a colon.
pub proof fn law_outpoint_is_given_back(txid: Text, vout: u32)
    requires
        forall|i: int| 0 <= i < lower(txid).len() ==> lower(txid)[i] != ':',
    ensures
        outpoint_of(outpoint(txid, vout)) == Some((lower(txid), vout)),
{
    let key = outpoint(txid, vout);
    let t = lower(txid);
    let d = decimal(vout as nat);
    lemma_decimal_value(vout as nat);
    assert(key[t.len() as int] == ':');
    assert forall|j: int| 0 <= j < t.len() implies key[j] != ':' by {
        assert(key[j] == t[j]);
    }
    assert(first_colon(key, t.len() as int));
    let c = choose|c: int| first_colon(key, c);
    assert(first_colon(key, c));
    assert(c == t.len());
    assert(key.skip(c + 1) =~= d);
    assert(key.take(c) =~= t);
    assert(is_digit(d[0]));
}

// ---------------------------------------------------------------------------
// Single transactions and blocks.
// ---------------------------------------------------------------------------

/// A logged transaction.
pub enum LoggedTx {
    Bet(BetView),
    Transfer(TransferView),
}

/// Entry `i` is the first wager of a transaction.
pub open spec fn first_bet(bets: Seq<BetModel>, txid: Text, i: int) -> bool {
    &&& 0 <= i < bets.len()
    &&& bets[i].txid == txid
    &&& forall|j: int| 0 <= j < i ==> (#[trigger] bets[j]).txid != txid
}

/// Entry `i` is the first transfer of a transaction.
pub open spec fn first_transfer(transfers: Seq<TransferModel>, txid: Text, i: int) -> bool {
    &&& 0 <= i < transfers.len()
    &&& transfers[i].txid == txid
    &&& forall|j: int| 0 <= j < i ==> (#[trigger] transfers[j]).txid != txid
}

/// The wager or else the transfer that a transaction is logged as.
pub fn bet_by_txid(state: &IndexerState, txid: &str) -> (r: Result<LoggedTx, ApiError>)
    ensures
        ({
            let bets = state@.ledger.bets;
            let transfers = state@.ledger.transfers;
            match r {
                Ok(LoggedTx::Bet(b)) => exists|i: int| first_bet(bets, txid@, i) && b@ == bets[i],
                Ok(LoggedTx::Transfer(t)) => {
                    &&& forall|i: int| !first_bet(bets, txid@, i)
                    &&& exists|i: int| first_transfer(transfers, txid@, i) && t@ == transfers[i]
                },
                Err(e) => {
                    &&& e == ApiError::NotFound
                    &&& forall|i: int| !first_bet(bets, txid@, i)
                    &&& forall|i: int| !first_transfer(transfers, txid@, i)
                },
            }
        }),
{
    let ghost bets = state@.ledger.bets;
    let ghost transfers = state@.ledger.transfers;
    let mut i: usize = 0;
    while i < state.bets.len()
        invariant
            i <= bets.len(),
            bets == views(state.bets@),
            bets == state@.ledger.bets,
            forall|j: int| 0 <= j < i ==> (#[trigger] bets[j]).txid != txid@,
        decreases bets.len() - i,
    {
        let bet = &state.bets[i];
        assert(bets[i as int] == bet@);
        if same_text(&bet.txid, txid) {
            let found = bet.clone();
            assert(first_bet(bets, txid@, i as int) && found@ == bets[i as int]);
            return Ok(LoggedTx::Bet(found));
        }
        i += 1;
    }
    let mut k: usize = 0;
    while k < state.transfers.len()
        invariant
            k <= transfers.len(),
            transfers == views(state.transfers@),
            forall|j: int| 0 <= j < k ==> (#[trigger] transfers[j]).txid != txid@,
            bets == state@.ledger.bets,
            transfers == state@.ledger.transfers,
            forall|j: int| 0 <= j < bets.len() ==> (#[trigger] bets[j]).txid != txid@,
        decreases transfers.len() - k,
    {
        let transfer = &state.transfers[k];
        assert(transfers[k as int] == transfer@);
        if same_text(&transfer.txid, txid) {
            let found = transfer.clone();
            assert(first_transfer(transfers, txid@, k as int) && found@ == transfers[k as int]);
            return Ok(LoggedTx::Transfer(found));
        }
        k += 1;
    }
    Err(ApiError::NotFound)
}

/// An unspent output.
#[derive(Debug, PartialEq, Eq)]
pub struct BtcUtxoEntry {
    pub txid: String,
    pub vout: u32,
    pub sats: u64,
    pub confirmed: bool,
    pub block_height: u32,
}

/// The unspent outputs of an address.
#[derive(Debug, PartialEq, Eq)]
pub struct BtcUtxosResponse {
    pub address: String,
    pub scanned_at_height: u32,
    pub utxos: Vec<BtcUtxoEntry>,
}

/// The unspent outputs that a scan found. A scan that did not run to its end is no
/// answer.
pub fn btc_utxos(address: &str, scan: &ScanTxOutResult) -> (r: Result<BtcUtxosResponse, ApiError>)
    ensures
        match r {
            Ok(a) => {
                &&& scan.success
                &&& a.address@ == address@
                &&& a.scanned_at_height == scan.height
                &&& a.utxos@.len() == scan.unspents@.len()
                &&& forall|i: int|
                    0 <= i < a.utxos@.len() ==> {
                        let (u, found) = (#[trigger] a.utxos@[i], scan.unspents@[i]);
                        &&& u.txid@ == found.txid@
                        &&& u.vout == found.vout
                        &&& u.sats == found.sats
                        &&& u.confirmed
                        &&& u.block_height == found.height
                    }
            },
            Err(e) => !scan.success && e == ApiError::BadGateway,
        },
{
    if !scan.success {
        return Err(ApiError::BadGateway);
    }
    let mut utxos: Vec<BtcUtxoEntry> = Vec::new();
    let mut i: usize = 0;
    while i < scan.unspents.len()
        invariant
            i <= scan.unspents@.len(),
            utxos@.len() == i,
            forall|j: int|
                0 <= j < i ==> {
                    let (u, found) = (#[trigger] utxos@[j], scan.unspents@[j]);
                    &&& u.txid@ == found.txid@
                    &&& u.vout == found.vout
                    &&& u.sats == found.sats
                    &&& u.confirmed
                    &&& u.block_height == found.height
                },
        decreases scan.unspents@.len() - i,
    {
        let u = &scan.unspents[i];
        utxos.push(
            BtcUtxoEntry {
                txid: u.txid.clone(),
                vout: u.vout,
                sats: u.sats,
                confirmed: true,
                block_height: u.height,
            },
        );
        i += 1;
    }
    Ok(BtcUtxosResponse { address: address.to_owned(), scanned_at_height: scan.height, utxos })
}

/// Where a transaction stands.
#[derive(Debug, PartialEq, Eq)]
pub struct TxStatusResponse {
    pub txid: String,
    pub confirmed: bool,
    pub block_hash: Option<String>,
    /// That of the block, where its header could be had.
    pub block_height: Option<u32>,
    pub block_time: Option<u64>,
}

/// Where a transaction stands, by the node's reply and the header of the block that it is
/// in, if that could be had.
pub fn tx_status(txid: &str, raw: &RawTxStatus, header: Option<&BlockHeader>) -> (r: TxStatusResponse)
    ensures
        r.txid@ == txid@,
        r.confirmed == (raw.confirmations >= 1),
        view_option(r.block_hash) == view_option(raw.blockhash),
        r.block_height == (if raw.blockhash is Some && header is Some {
            Some(header->0.height)
        } else {
            None
        }),
        r.block_time == raw.blocktime,
{
    let block_height = match (&raw.blockhash, header) {
        (Some(_), Some(b)) => Some(b.height),
        _ => None,
    };
    TxStatusResponse {
        txid: txid.to_owned(),
        confirmed: raw.confirmations >= 1,
        block_hash: crate::views::copy_text(&raw.blockhash),
        block_height,
        block_time: raw.blocktime,
    }
}

/// How a request for a transaction is refused when the node answers with an error: the
/// node does not know it, or something else is wrong.
pub fn tx_error(message: &str) -> (r: ApiError)
    ensures
        r == (if contains_text(message@, "No such"@) || contains_text(message@, "not found"@)
            || contains_text(message@, "invalid txid"@) {
            ApiError::NotFound
        } else {
            ApiError::BadGateway
        }),
{
    if has_text(message, "No such") || has_text(message, "not found") || has_text(
        message,
        "invalid txid",
    ) {
        ApiError::NotFound
    } else {
        ApiError::BadGateway
    }
}

/// How a request for a block is refused when the node answers with an error: there is no
/// such height yet, or something else is wrong.
pub fn block_error(message: &str) -> (r: ApiError)
    ensures
        r == (if contains_text(message@, "out of range"@) || contains_text(
            message@,
            "Block height"@,
        ) {
            ApiError::NotFound
        } else {
            ApiError::BadGateway
        }),
{
    if has_text(message, "out of range") || has_text(message, "Block height") {
        ApiError::NotFound
    } else {
        ApiError::BadGateway
    }
}

} // verus!
