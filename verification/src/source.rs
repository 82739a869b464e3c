//! Blocks as they come from the node, and how they are taken in.
use vstd::prelude::*;

use crate::hashing::{decode_hex, decode_merkle_node, decode_txid, merkle_root};
use crate::indexer::Network;
use crate::protocol::{parse_payload, ProtocolPayload};
use crate::strmap::{Duplicate, StrMap};
use crate::text::{same_text, to_lowercase};
use crate::views::{copy_text, copy_vec};

verus! {

use crate::hashing::{hash_bytes, hash_views, hex_bytes, merkle_root_of};
use crate::ledger::{sat, Text};
use crate::protocol::{payload_of, payload_view, PayloadModel};
use crate::strmap::lists_keys;
use crate::text::lower;
use crate::views::{view_option, views};

/// Longest payload that is trusted. A script that declares more is skipped.
pub const MAX_OP_RETURN_PAYLOAD: usize = 256;

/// The opcode that begins an `OP_RETURN` script.
pub const OP_RETURN: u8 = 0x6a;

// ---------------------------------------------------------------------------
// The network.
// ---------------------------------------------------------------------------

/// A network that is not supported, by its name in lower case.
#[derive(Debug, PartialEq, Eq)]
pub struct UnsupportedNetwork {
    pub name: String,
}

impl UnsupportedNetwork {
    /// The error in words.
    pub fn message(&self) -> (r: String)
        ensures
            r@ == self.name@ + " not supported — LUCKYPROTOCOL indexer is mainnet-only"@,
    {
        let mut s = self.name.clone();
        s.append(" not supported — LUCKYPROTOCOL indexer is mainnet-only");
        s
    }
}

/// Reads a network's name in any case. Only the main one is supported.
pub fn parse_network(s: &str) -> (r: Result<Network, UnsupportedNetwork>)
    ensures
        match r {
            Ok(n) => n == Network::Bitcoin && (lower(s@) == "bitcoin"@ || lower(s@) == "mainnet"@),
            Err(e) => {
                &&& lower(s@) != "bitcoin"@
                &&& lower(s@) != "mainnet"@
                &&& e.name@ == lower(s@)
            },
        },
{
    let name = to_lowercase(s);
    if same_text(&name, "bitcoin") || same_text(&name, "mainnet") {
        Ok(Network::Bitcoin)
    } else {
        Err(UnsupportedNetwork { name })
    }
}

// ---------------------------------------------------------------------------
// Transactions.
// ---------------------------------------------------------------------------

/// An input.
#[derive(Debug, PartialEq, Eq)]
pub struct EsploraVin {
    /// The transaction whose output is spent; empty on a coinbase input.
    pub txid: String,
    /// The index of the output that is spent.
    pub vout: u32,
    /// The output that is spent, where it is known.
    pub prevout: Option<EsploraVout>,
}

/// An output.
#[derive(Debug, PartialEq, Eq)]
pub struct EsploraVout {
    /// The address, where the script has one.
    pub scriptpubkey_address: Option<String>,
    /// The value in sats.
    pub value: u64,
    /// The script in hexadecimal.
    pub scriptpubkey: String,
    /// The script's type, such as `op_return` or `v0_p2wpkh`.
    pub scriptpubkey_type: String,
}

/// A transaction.
#[derive(Debug, PartialEq, Eq)]
pub struct EsploraTxFull {
    pub txid: String,
    pub vin: Vec<EsploraVin>,
    pub vout: Vec<EsploraVout>,
}

/// An output with its texts as characters.
pub ghost struct VoutModel {
    pub address: Option<Text>,
    pub value: u64,
    pub script: Text,
    pub kind: Text,
}

/// An input with its texts as characters.
pub ghost struct VinModel {
    pub txid: Text,
    pub vout: u32,
    pub prevout: Option<VoutModel>,
}

/// A transaction with its texts as characters.
#[verifier::ext_equal]
pub ghost struct TxFullModel {
    pub txid: Text,
    pub vin: Seq<VinModel>,
    pub vout: Seq<VoutModel>,
}

impl View for EsploraVout {
    type V = VoutModel;

    open spec fn view(&self) -> VoutModel {
        VoutModel {
            address: view_option(self.scriptpubkey_address),
            value: self.value,
            script: self.scriptpubkey@,
            kind: self.scriptpubkey_type@,
        }
    }
}

impl View for EsploraVin {
    type V = VinModel;

    open spec fn view(&self) -> VinModel {
        VinModel { txid: self.txid@, vout: self.vout, prevout: view_option(self.prevout) }
    }
}

impl View for EsploraTxFull {
    type V = TxFullModel;

    open spec fn view(&self) -> TxFullModel {
        TxFullModel { txid: self.txid@, vin: views(self.vin@), vout: views(self.vout@) }
    }
}

impl Clone for EsploraVout {
    fn clone(&self) -> (r: EsploraVout)
        ensures
            r@ == self@,
    {
        EsploraVout {
            scriptpubkey_address: copy_text(&self.scriptpubkey_address),
            value: self.value,
            scriptpubkey: self.scriptpubkey.clone(),
            scriptpubkey_type: self.scriptpubkey_type.clone(),
        }
    }
}

impl Clone for EsploraVin {
    fn clone(&self) -> (r: EsploraVin)
        ensures
            r@ == self@,
    {
        EsploraVin {
            txid: self.txid.clone(),
            vout: self.vout,
            prevout: match &self.prevout {
                Some(p) => Some(p.clone()),
                None => None,
            },
        }
    }
}

impl Duplicate for EsploraVout {
    fn duplicate(&self) -> (r: EsploraVout) {
        self.clone()
    }
}

impl Duplicate for EsploraVin {
    fn duplicate(&self) -> (r: EsploraVin) {
        self.clone()
    }
}

impl Clone for EsploraTxFull {
    fn clone(&self) -> (r: EsploraTxFull)
        ensures
            r@ == self@,
    {
        let vin = copy_vec(&self.vin);
        let vout = copy_vec(&self.vout);
        EsploraTxFull { txid: self.txid.clone(), vin, vout }
    }
}

// ---------------------------------------------------------------------------
// `OP_RETURN` outputs.
// ---------------------------------------------------------------------------

/// An `OP_RETURN` output: one whose script begins with that opcode. How the node
/// classifies it plays no part.
pub open spec fn is_op_return(v: VoutModel) -> bool {
    hex_bytes(v.script) matches Some(b) && b.len() > 0 && b[0] == OP_RETURN
}

/// The `OP_RETURN` outputs in order.
pub open spec fn op_returns(vouts: Seq<VoutModel>) -> Seq<VoutModel>
    decreases vouts.len(),
{
    if vouts.len() == 0 {
        Seq::empty()
    } else if is_op_return(vouts.last()) {
        op_returns(vouts.drop_last()).push(vouts.last())
    } else {
        op_returns(vouts.drop_last())
    }
}

/// The indices of the `OP_RETURN` outputs in order.
pub open spec fn op_return_idxs(vouts: Seq<VoutModel>) -> Seq<u32>
    decreases vouts.len(),
{
    if vouts.len() == 0 {
        Seq::empty()
    } else if is_op_return(vouts.last()) {
        op_return_idxs(vouts.drop_last()).push((vouts.len() - 1) as u32)
    } else {
        op_return_idxs(vouts.drop_last())
    }
}

/// The `len` bytes from position `at` on, where they are within bounds and end the
/// script.
pub open spec fn push_of(b: Seq<u8>, at: nat, len: nat) -> Option<Seq<u8>> {
    if len <= MAX_OP_RETURN_PAYLOAD && b.len() == at + len {
        Some(b.skip(at as int))
    } else {
        None
    }
}

/// What an `OP_RETURN` script pushes: the opcode, exactly one push of any of the four
/// forms, and nothing after it.
pub open spec fn pushed(b: Seq<u8>) -> Option<Seq<u8>> {
    if b.len() < 2 || b[0] != OP_RETURN {
        None
    } else if 0x01 <= b[1] <= 0x4b {
        push_of(b, 2, b[1] as nat)
    } else if b[1] == 0x4c && b.len() >= 3 {
        push_of(b, 3, b[2] as nat)
    } else if b[1] == 0x4d && b.len() >= 4 {
        push_of(b, 4, (b[2] + 256 * b[3]) as nat)
    } else if b[1] == 0x4e && b.len() >= 6 {
        push_of(b, 6, (b[2] + 256 * b[3] + 65_536 * b[4] + 16_777_216 * b[5]) as nat)
    } else {
        None
    }
}

/// The payload that one output carries.
pub open spec fn carried(v: VoutModel) -> Option<PayloadModel> {
    match hex_bytes(v.script) {
        Some(b) => match pushed(b) {
            Some(p) => payload_of(p),
            None => None,
        },
        None => None,
    }
}

/// The payload of a transaction: that of its one `OP_RETURN` output. A transaction with
/// several has none.
pub open spec fn payload_of_tx(tx: TxFullModel) -> Option<PayloadModel> {
    let carriers = op_returns(tx.vout);
    if carriers.len() == 1 {
        carried(carriers[0])
    } else {
        None
    }
}

fn op_return_output(v: &EsploraVout) -> (r: bool)
    ensures
        r == is_op_return(v@),
{
    match decode_hex(&v.scriptpubkey) {
        Ok(b) => b.len() > 0 && b[0] == OP_RETURN,
        Err(_) => false,
    }
}

fn pushed_at(b: &[u8], at: usize, len: u64) -> (r: Option<&[u8]>)
    requires
        at <= 6,
        at <= b@.len(),
    ensures
        view_option(r) == push_of(b@, at as nat, len as nat),
{
    if len > MAX_OP_RETURN_PAYLOAD as u64 || b.len() != at + len as usize {
        return None;
    }
    let p = vstd::slice::slice_subrange(b, at, b.len());
    assert(p@ =~= b@.skip(at as int));
    Some(p)
}

/// What an `OP_RETURN` script pushes.
pub fn pushed_data(b: &[u8]) -> (r: Option<&[u8]>)
    ensures
        view_option(r) == pushed(b@),
{
    let n: usize = b.len();
    if n < 2 || b[0] != OP_RETURN {
        return None;
    }
    let op: u8 = b[1];
    if 0x01 <= op && op <= 0x4b {
        pushed_at(b, 2, op as u64)
    } else if op == 0x4c && n >= 3 {
        pushed_at(b, 3, b[2] as u64)
    } else if op == 0x4d && n >= 4 {
        pushed_at(b, 4, b[2] as u64 + 256 * (b[3] as u64))
    } else if op == 0x4e && n >= 6 {
        pushed_at(
            b,
            6,
            b[2] as u64 + 256 * (b[3] as u64) + 65_536 * (b[4] as u64) + 16_777_216 * (b[5] as u64),
        )
    } else {
        None
    }
}

fn carried_payload(v: &EsploraVout) -> (r: Option<ProtocolPayload>)
    ensures
        payload_view(r) == carried(v@),
{
    match decode_hex(&v.scriptpubkey) {
        Ok(b) => match pushed_data(b.as_slice()) {
            Some(p) => parse_payload(p),
            None => None,
        },
        Err(_) => None,
    }
}

/// The payload that a transaction carries.
pub fn extract_luckyprotocol_payload_from_json(tx: &EsploraTxFull) -> (r: Option<ProtocolPayload>)
    ensures
        payload_view(r) == payload_of_tx(tx@),
{
    let ghost vouts = tx@.vout;
    let mut count: usize = 0;
    let mut payload: Option<ProtocolPayload> = None;
    let mut i: usize = 0;
    assert(vouts.take(0) =~= Seq::empty());
    while i < tx.vout.len()
        invariant
            i <= tx.vout@.len(),
            vouts == views(tx.vout@),
            count <= 1,
            count == op_returns(vouts.take(i as int)).len(),
            count == 0 ==> payload is None,
            count == 1 ==> payload_view(payload) == carried(op_returns(vouts.take(i as int))[0]),
        decreases tx.vout@.len() - i,
    {
        proof {
            assert(vouts.take(i + 1).drop_last() =~= vouts.take(i as int));
            assert(vouts.take(i + 1).last() == tx.vout@[i as int]@);
        }
        if op_return_output(&tx.vout[i]) {
            count += 1;
            if count > 1 {
                proof {
                    lemma_op_returns_grow(vouts, i + 1);
                }
                return None;
            }
            payload = carried_payload(&tx.vout[i]);
        }
        i += 1;
    }
    assert(vouts.take(vouts.len() as int) =~= vouts);
    payload
}

proof fn lemma_op_returns_grow(vouts: Seq<VoutModel>, i: int)
    requires
        0 <= i <= vouts.len(),
    ensures
        op_returns(vouts.take(i)).len() <= op_returns(vouts).len(),
    decreases vouts.len() - i,
{
    if i < vouts.len() {
        assert(vouts.take(i + 1).drop_last() =~= vouts.take(i));
        lemma_op_returns_grow(vouts, i + 1);
    } else {
        assert(vouts.take(i) =~= vouts);
    }
}

/// The indices of the `OP_RETURN` outputs.
pub(crate) fn op_return_indices(vouts: &Vec<EsploraVout>) -> (r: Vec<u32>)
    ensures
        r@ == op_return_idxs(views(vouts@)),
{
    let ghost all = views(vouts@);
    let mut out: Vec<u32> = Vec::new();
    let mut i: usize = 0;
    assert(all.take(0) =~= Seq::empty());
    while i < vouts.len()
        invariant
            i <= vouts@.len(),
            all == views(vouts@),
            out@ == op_return_idxs(all.take(i as int)),
        decreases vouts@.len() - i,
    {
        proof {
            assert(all.take(i + 1).drop_last() =~= all.take(i as int));
            assert(all.take(i + 1).last() == vouts@[i as int]@);
        }
        if op_return_output(&vouts[i]) {
            out.push(i as u32);
        }
        i += 1;
    }
    assert(all.take(all.len() as int) =~= all);
    out
}

// ---------------------------------------------------------------------------
// The sender.
// ---------------------------------------------------------------------------

/// The address that an input comes from, where it is known.
pub open spec fn input_address(v: VinModel) -> Option<Text> {
    match v.prevout {
        Some(p) => p.address,
        None => None,
    }
}

/// Some input comes from the address.
pub open spec fn contributes(vins: Seq<VinModel>, address: Text) -> bool {
    exists|i: int| 0 <= i < vins.len() && input_address(#[trigger] vins[i]) == Some(address)
}

/// What the inputs from an address are worth.
pub open spec fn contribution(vins: Seq<VinModel>, address: Text) -> nat
    decreases vins.len(),
{
    if vins.len() == 0 {
        0
    } else {
        contribution(vins.drop_last(), address) + (if input_address(vins.last()) == Some(address) {
            vins.last().prevout->0.value as nat
        } else {
            0
        })
    }
}

/// Input `i` is the first one from an address.
pub open spec fn starts_at(vins: Seq<VinModel>, address: Text, i: int) -> bool {
    &&& 0 <= i < vins.len()
    &&& input_address(vins[i]) == Some(address)
    &&& forall|j: int| 0 <= j < i ==> input_address(#[trigger] vins[j]) != Some(address)
}

/// The position of the first input from an address.
pub open spec fn first_input(vins: Seq<VinModel>, address: Text) -> int {
    choose|i: int| starts_at(vins, address, i)
}

/// `a` contributes more than `b`, or as much from an earlier input.
pub open spec fn outranks(vins: Seq<VinModel>, a: Text, b: Text) -> bool {
    let x = sat(contribution(vins, a));
    let y = sat(contribution(vins, b));
    x > y || (x == y && first_input(vins, a) <= first_input(vins, b))
}

/// The address that contributes the most; among equals the one with the earliest input.
pub open spec fn is_sender(vins: Seq<VinModel>, address: Text) -> bool {
    contributes(vins, address) && forall|b: Text| #[trigger]
        contributes(vins, b) ==> outranks(vins, address, b)
}

/// The sender that is logged: empty where no input's address is known.
pub open spec fn sender_of(vins: Seq<VinModel>) -> Text {
    if exists|a: Text| is_sender(vins, a) {
        choose|a: Text| is_sender(vins, a)
    } else {
        Seq::empty()
    }
}

proof fn lemma_first_input(vins: Seq<VinModel>, address: Text, i: int)
    requires
        starts_at(vins, address, i),
    ensures
        first_input(vins, address) == i,
{
    let k = first_input(vins, address);
    assert(starts_at(vins, address, k));
}

/// There is at most one sender.
pub proof fn law_sender_is_unique(vins: Seq<VinModel>, a: Text, b: Text)
    requires
        is_sender(vins, a),
        is_sender(vins, b),
    ensures
        a == b,
        sender_of(vins) == a,
{
    lemma_same_rank(vins, a, b);
    lemma_same_rank(vins, a, sender_of(vins));
}

proof fn lemma_same_rank(vins: Seq<VinModel>, a: Text, b: Text)
    requires
        is_sender(vins, a),
        is_sender(vins, b),
    ensures
        a == b,
{
    assert(outranks(vins, a, b) && outranks(vins, b, a));
    lemma_first_exists(vins, a);
    lemma_first_exists(vins, b);
    let i = choose|i: int| starts_at(vins, a, i);
    let j = choose|j: int| starts_at(vins, b, j);
    lemma_first_input(vins, a, i);
    lemma_first_input(vins, b, j);
}

/// An address that contributes has a first input.
pub proof fn lemma_first_exists(vins: Seq<VinModel>, address: Text)
    requires
        contributes(vins, address),
    ensures
        exists|i: int| starts_at(vins, address, i),
    decreases vins.len(),
{
    let front = vins.drop_last();
    if contributes(front, address) {
        lemma_first_exists(front, address);
        let i = choose|i: int| starts_at(front, address, i);
        assert(vins[i] == front[i]);
        assert forall|j: int| 0 <= j < i implies input_address(#[trigger] vins[j]) != Some(
            address,
        ) by {
            assert(front[j] == vins[j]);
        }
        assert(starts_at(vins, address, i));
    } else {
        let i = choose|i: int|
            0 <= i < vins.len() && input_address(#[trigger] vins[i]) == Some(address);
        if i < front.len() {
            assert(front[i] == vins[i]);
        }
        assert forall|j: int| 0 <= j < vins.len() - 1 implies input_address(#[trigger] vins[j])
            != Some(address) by {
            assert(front[j] == vins[j]);
        }
        assert(starts_at(vins, address, vins.len() - 1));
    }
}

proof fn lemma_no_contribution(vins: Seq<VinModel>, address: Text)
    requires
        !contributes(vins, address),
    ensures
        contribution(vins, address) == 0,
    decreases vins.len(),
{
    if vins.len() > 0 {
        let front = vins.drop_last();
        assert forall|i: int| 0 <= i < front.len() implies input_address(#[trigger] front[i])
            != Some(address) by {
            assert(vins[i] == front[i]);
        }
        assert(input_address(vins[vins.len() - 1]) != Some(address));
        lemma_no_contribution(front, address);
    }
}

/// One more input: who contributes, how much, and from which input on.
proof fn lemma_one_more_input(vins: Seq<VinModel>, i: int, a: Text)
    requires
        0 <= i < vins.len(),
    ensures
        contributes(vins.take(i + 1), a) == (contributes(vins.take(i), a) || input_address(vins[i])
            == Some(a)),
        contribution(vins.take(i + 1), a) == contribution(vins.take(i), a) + (if input_address(vins[i])
            == Some(a) {
            vins[i].prevout->0.value as nat
        } else {
            0
        }),
        forall|k: int| #[trigger] starts_at(vins.take(i), a, k) ==> starts_at(vins.take(i + 1), a, k),
        !contributes(vins.take(i), a) && input_address(vins[i]) == Some(a) ==> starts_at(
            vins.take(i + 1),
            a,
            i,
        ),
{
    let before = vins.take(i);
    let after = vins.take(i + 1);
    assert(after.drop_last() =~= before);
    assert(after.last() == vins[i]);
    if contributes(before, a) {
        let k = choose|k: int| 0 <= k < before.len() && input_address(#[trigger] before[k]) == Some(a);
        assert(after[k] == before[k]);
    }
    if input_address(vins[i]) == Some(a) {
        assert(after[i] == vins[i]);
        assert(contributes(after, a));
    }
    if contributes(after, a) && input_address(vins[i]) != Some(a) {
        let k = choose|k: int| 0 <= k < after.len() && input_address(#[trigger] after[k]) == Some(a);
        assert(k != i);
        assert(before[k] == after[k]);
    }
    assert forall|k: int| #[trigger] starts_at(before, a, k) implies starts_at(after, a, k) by {
        assert(after[k] == before[k]);
        assert forall|j: int| 0 <= j < k implies input_address(#[trigger] after[j]) != Some(a) by {
            assert(before[j] == after[j]);
        }
    }
    if !contributes(before, a) && input_address(vins[i]) == Some(a) {
        assert forall|j: int| 0 <= j < i implies input_address(#[trigger] after[j]) != Some(a) by {
            assert(before[j] == after[j]);
        }
    }
}

/// What each address contributes, and from which input on.
fn contributions(vins: &Vec<EsploraVin>) -> (r: StrMap<(u64, usize)>)
    ensures
        forall|a: Text| #[trigger] r@.contains_key(a) <==> contributes(views(vins@), a),
        forall|a: Text| #[trigger]
            r@.contains_key(a) ==> r@[a].0 == sat(contribution(views(vins@), a)) && r@[a].1
                == first_input(views(vins@), a),
{
    let ghost all = views(vins@);
    let mut by_addr: StrMap<(u64, usize)> = StrMap::new();
    let mut i: usize = 0;
    while i < vins.len()
        invariant
            i <= vins@.len(),
            all == views(vins@),
            forall|a: Text| #[trigger]
                by_addr@.contains_key(a) <==> contributes(all.take(i as int), a),
            forall|a: Text| #[trigger]
                by_addr@.contains_key(a) ==> by_addr@[a].0 == sat(
                    contribution(all.take(i as int), a),
                ) && starts_at(all.take(i as int), a, by_addr@[a].1 as int),
        decreases vins@.len() - i,
    {
        let ghost prev = by_addr@;
        proof {
            assert(all[i as int] == vins@[i as int]@);
            assert forall|a: Text|
                #![trigger contributes(all.take(i + 1), a)]
                #![trigger contribution(all.take(i + 1), a)]
                #![trigger prev.contains_key(a)]
                {
                    &&& contributes(all.take(i + 1), a) == (contributes(all.take(i as int), a)
                        || input_address(all[i as int]) == Some(a))
                    &&& contribution(all.take(i + 1), a) == contribution(all.take(i as int), a) + (
                    if input_address(all[i as int]) == Some(a) {
                        all[i as int].prevout->0.value as nat
                    } else {
                        0
                    })
                    &&& prev.contains_key(a) ==> starts_at(all.take(i + 1), a, prev[a].1 as int)
                } by {
                lemma_one_more_input(all, i as int, a);
                if prev.contains_key(a) {
                    assert(starts_at(all.take(i as int), a, prev[a].1 as int));
                }
            }
        }
        if let Some(prev_out) = &vins[i].prevout {
            if let Some(addr) = &prev_out.scriptpubkey_address {
                proof {
                    lemma_one_more_input(all, i as int, addr@);
                    if !contributes(all.take(i as int), addr@) {
                        lemma_no_contribution(all.take(i as int), addr@);
                    }
                }
                let cur: (u64, usize) = match by_addr.get(addr) {
                    Some(c) => *c,
                    None => (0, i),
                };
                let next: (u64, usize) = (cur.0.saturating_add(prev_out.value), cur.1);
                by_addr.insert(addr.clone(), next);
            }
        }
        i += 1;
    }
    proof {
        assert(all.take(all.len() as int) =~= all);
        assert forall|a: Text| #[trigger] by_addr@.contains_key(a) implies by_addr@[a].1
            == first_input(all, a) by {
            lemma_first_input(all, a, by_addr@[a].1 as int);
        }
    }
    by_addr
}

/// The address that contributes the most to a transaction, for the logs. It authorizes
/// nothing.
pub fn resolve_sender_from_json(tx: &EsploraTxFull) -> (r: Option<String>)
    ensures
        match r {
            Some(a) => is_sender(tx@.vin, a@),
            None => forall|a: Text| !#[trigger] contributes(tx@.vin, a),
        },
{
    let ghost vins = tx@.vin;
    let by_addr = contributions(&tx.vin);
    let n: usize = by_addr.len();
    if n == 0 {
        proof {
            assert forall|a: Text| !#[trigger] contributes(vins, a) by {
                if contributes(vins, a) {
                    assert(by_addr@.contains_key(a));
                    assert(by_addr.keys().contains(a));
                }
            }
        }
        return None;
    }
    let ghost keys = by_addr.keys();
    let mut best: usize = 0;
    let mut i: usize = 1;
    while i < n
        invariant
            best < n,
            1 <= i <= n,
            n == keys.len(),
            keys == by_addr.keys(),
            lists_keys(keys, by_addr@),
            forall|a: Text| #[trigger]
                by_addr@.contains_key(a) ==> by_addr@[a].0 == sat(contribution(vins, a))
                    && by_addr@[a].1 == first_input(vins, a),
            forall|j: int| 0 <= j < i ==> outranks(vins, keys[best as int], #[trigger] keys[j]),
        decreases n - i,
    {
        let x: &(u64, usize) = by_addr.value_at(i);
        let y: &(u64, usize) = by_addr.value_at(best);
        assert(x.0 == sat(contribution(vins, keys[i as int])));
        assert(y.0 == sat(contribution(vins, keys[best as int])));
        if x.0 > y.0 || (x.0 == y.0 && x.1 < y.1) {
            best = i;
        }
        i += 1;
    }
    let sender = by_addr.key_at(best).clone();
    proof {
        assert forall|b: Text| #[trigger] contributes(vins, b) implies outranks(vins, sender@, b) by {
            assert(by_addr@.contains_key(b));
            assert(keys.contains(b));
        }
        assert(by_addr@.contains_key(sender@));
    }
    Some(sender)
}

// ---------------------------------------------------------------------------
// Blocks.
// ---------------------------------------------------------------------------

/// A block as it comes from the node: its hash, the merkle root in its header, and its
/// transactions in pages.
#[derive(Debug, PartialEq, Eq)]
pub struct BlockData {
    pub block_hash: String,
    pub merkle_root_claimed: String,
    pub pages: Vec<(usize, Vec<EsploraTxFull>)>,
}

/// The transactions of a block in order.
pub open spec fn block_txs(pages: Seq<(usize, Vec<EsploraTxFull>)>) -> Seq<TxFullModel>
    decreases pages.len(),
{
    if pages.len() == 0 {
        Seq::empty()
    } else {
        block_txs(pages.drop_last()) + views(pages.last().1@)
    }
}

proof fn lemma_block_txs_prefix(pages: Seq<(usize, Vec<EsploraTxFull>)>, p: int)
    requires
        0 <= p <= pages.len(),
    ensures
        block_txs(pages.take(p)).is_prefix_of(block_txs(pages)),
    decreases pages.len() - p,
{
    if p < pages.len() {
        assert(pages.take(p + 1).drop_last() =~= pages.take(p));
        lemma_block_txs_prefix(pages, p + 1);
        let a = block_txs(pages.take(p));
        let b = block_txs(pages.take(p + 1));
        let c = block_txs(pages);
        assert(a =~= b.take(a.len() as int));
        assert(a =~= c.take(a.len() as int));
    } else {
        assert(pages.take(p) =~= pages);
        assert(block_txs(pages) =~= block_txs(pages).take(block_txs(pages).len() as int));
    }
}

/// Why a block's transactions are not those of its header.
#[derive(Debug, PartialEq, Eq)]
pub enum MerkleError {
    /// The header names no root.
    MissingRoot,
    /// A transaction id is no hash.
    BadTxid { txid: String },
    /// There are no transactions.
    NoTransactions,
    /// No root came out.
    NoRoot,
    /// The header's root is no hash.
    BadRoot { root: String },
    /// The root that comes out is another.
    Mismatch { computed: [u8; 32], claimed: [u8; 32] },
}

/// A merkle error with its texts as characters.
pub ghost enum MerkleFault {
    MissingRoot,
    BadTxid { txid: Text },
    NoTransactions,
    NoRoot,
    BadRoot { root: Text },
    Mismatch { computed: Seq<u8>, claimed: Seq<u8> },
}

impl View for MerkleError {
    type V = MerkleFault;

    open spec fn view(&self) -> MerkleFault {
        match *self {
            MerkleError::MissingRoot => MerkleFault::MissingRoot,
            MerkleError::BadTxid { txid } => MerkleFault::BadTxid { txid: txid@ },
            MerkleError::NoTransactions => MerkleFault::NoTransactions,
            MerkleError::NoRoot => MerkleFault::NoRoot,
            MerkleError::BadRoot { root } => MerkleFault::BadRoot { root: root@ },
            MerkleError::Mismatch { computed, claimed } => MerkleFault::Mismatch {
                computed: computed@,
                claimed: claimed@,
            },
        }
    }
}

/// The outcome of a check with its error's texts as characters.
pub open spec fn verdict_view(r: Result<(), MerkleError>) -> Result<(), MerkleFault> {
    match r {
        Ok(_) => Ok(()),
        Err(e) => Err(e@),
    }
}

/// Whether a root that was computed is the one that is claimed.
pub open spec fn root_verdict(computed: Option<Seq<u8>>, claimed: Text) -> Result<(), MerkleFault> {
    match computed {
        None => Err(MerkleFault::NoRoot),
        Some(c) => match hash_bytes(claimed) {
            None => Err(MerkleFault::BadRoot { root: claimed }),
            Some(k) => if c == k {
                Ok(())
            } else {
                Err(MerkleFault::Mismatch { computed: c, claimed: k })
            },
        },
    }
}

/// Every transaction id is a hash.
pub open spec fn txids_ok(txs: Seq<TxFullModel>) -> bool {
    forall|i: int| 0 <= i < txs.len() ==> hash_bytes((#[trigger] txs[i]).txid) is Some
}

/// Transaction `i` is the first whose id is no hash.
pub open spec fn first_bad_txid(txs: Seq<TxFullModel>, i: int) -> bool {
    &&& 0 <= i < txs.len()
    &&& hash_bytes(txs[i].txid) is None
    &&& forall|j: int| 0 <= j < i ==> hash_bytes((#[trigger] txs[j]).txid) is Some
}

/// The hashes that the transaction ids stand for.
pub open spec fn txid_hashes(txs: Seq<TxFullModel>) -> Seq<Seq<u8>> {
    txs.map_values(|t: TxFullModel| hash_bytes(t.txid)->0)
}

/// Whether the transactions hash to the claimed root.
pub open spec fn merkle_verdict(txs: Seq<TxFullModel>, claimed: Text) -> Result<(), MerkleFault> {
    if claimed.len() == 0 {
        Err(MerkleFault::MissingRoot)
    } else if !txids_ok(txs) {
        Err(MerkleFault::BadTxid { txid: txs[choose|i: int| first_bad_txid(txs, i)].txid })
    } else if txs.len() == 0 {
        Err(MerkleFault::NoTransactions)
    } else {
        root_verdict(merkle_root_of(txid_hashes(txs)), claimed)
    }
}

fn same_hash(a: &[u8; 32], b: &[u8; 32]) -> (r: bool)
    ensures
        r == (a@ == b@),
{
    let mut i: usize = 0;
    while i < 32
        invariant
            i <= 32,
            forall|j: int| 0 <= j < i ==> a@[j] == b@[j],
        decreases 32 - i,
    {
        if a[i] != b[i] {
            assert(a@[i as int] != b@[i as int]);
            return false;
        }
        i += 1;
    }
    assert(a@ =~= b@);
    true
}

/// Holds a computed root against the one that a header claims.
pub fn check_root(computed: Option<[u8; 32]>, merkle_root_claimed: &str) -> (r: Result<
    (),
    MerkleError,
>)
    ensures
        verdict_view(r) == root_verdict(
            (match computed {
                Some(c) => Some(c@),
                None => None,
            }),
            merkle_root_claimed@,
        ),
{
    let computed: [u8; 32] = match computed {
        Some(c) => c,
        None => return Err(MerkleError::NoRoot),
    };
    let claimed: [u8; 32] = match decode_merkle_node(merkle_root_claimed) {
        Ok(k) => k,
        Err(_) => return Err(MerkleError::BadRoot { root: merkle_root_claimed.to_owned() }),
    };
    if same_hash(&computed, &claimed) {
        Ok(())
    } else {
        Err(MerkleError::Mismatch { computed, claimed })
    }
}

/// Adds the hashes of a page's transactions; on a bad id, its position.
fn push_page_nodes(page: &Vec<EsploraTxFull>, nodes: &mut Vec<[u8; 32]>) -> (r: Result<(), usize>)
    ensures
        match r {
            Ok(_) => {
                &&& txids_ok(views(page@))
                &&& hash_views(final(nodes)@) == hash_views(old(nodes)@) + txid_hashes(views(page@))
            },
            Err(k) => first_bad_txid(views(page@), k as int),
        },
{
    let ghost txs = views(page@);
    let ghost start = hash_views(nodes@);
    let mut i: usize = 0;
    assert(start + txid_hashes(txs).take(0) =~= start);
    while i < page.len()
        invariant
            i <= page@.len(),
            txs == views(page@),
            forall|j: int| 0 <= j < i ==> hash_bytes((#[trigger] txs[j]).txid) is Some,
            hash_views(nodes@) == start + txid_hashes(txs).take(i as int),
        decreases page@.len() - i,
    {
        assert(txs[i as int] == page@[i as int]@);
        match decode_txid(&page[i].txid) {
            Ok(h) => {
                let ghost before = nodes@;
                nodes.push(h);
                assert(hash_views(nodes@) =~= hash_views(before).push(h@));
                assert(txid_hashes(txs)[i as int] == h@);
                assert(start + txid_hashes(txs).take(i + 1) =~= (start + txid_hashes(txs).take(
                    i as int,
                )).push(h@));
            },
            Err(_) => {
                return Err(i);
            },
        }
        i += 1;
    }
    assert(txid_hashes(txs).take(txs.len() as int) =~= txid_hashes(txs));
    Ok(())
}

/// Checks that a block's transactions hash to the merkle root in its header.
pub fn verify_block_merkle_root(
    pages: &Vec<(usize, Vec<EsploraTxFull>)>,
    merkle_root_claimed: &str,
) -> (r: Result<(), MerkleError>)
    ensures
        verdict_view(r) == merkle_verdict(block_txs(pages@), merkle_root_claimed@),
{
    let ghost txs = block_txs(pages@);
    if crate::text::chars_of(merkle_root_claimed).len() == 0 {
        return Err(MerkleError::MissingRoot);
    }
    let mut nodes: Vec<[u8; 32]> = Vec::new();
    let mut p: usize = 0;
    proof {
        assert(pages@.take(0) =~= Seq::empty());
        assert(hash_views(nodes@) =~= txid_hashes(block_txs(pages@.take(0))));
    }
    while p < pages.len()
        invariant
            p <= pages@.len(),
            txs == block_txs(pages@),
            merkle_root_claimed@.len() > 0,
            txids_ok(block_txs(pages@.take(p as int))),
            hash_views(nodes@) == txid_hashes(block_txs(pages@.take(p as int))),
        decreases pages@.len() - p,
    {
        let ghost done = block_txs(pages@.take(p as int));
        let ghost page = views(pages@[p as int].1@);
        proof {
            assert(pages@.take(p + 1).drop_last() =~= pages@.take(p as int));
            assert(block_txs(pages@.take(p + 1)) == done + page);
            lemma_block_txs_prefix(pages@, p + 1);
            assert(txid_hashes(done + page) =~= txid_hashes(done) + txid_hashes(page));
        }
        match push_page_nodes(&pages[p].1, &mut nodes) {
            Ok(_) => {},
            Err(k) => {
                proof {
                    let i: int = done.len() + k;
                    let both = done + page;
                    assert(txs.take(both.len() as int) =~= both);
                    assert(txs[i] == txs.take(both.len() as int)[i]);
                    assert(txs[i] == page[k as int]);
                    assert forall|j: int| 0 <= j < i implies hash_bytes((#[trigger] txs[j]).txid) is Some by {
                        assert(txs[j] == txs.take(both.len() as int)[j]);
                        if j < done.len() {
                            assert(txs[j] == done[j]);
                        } else {
                            assert(txs[j] == page[j - done.len()]);
                        }
                    }
                    assert(first_bad_txid(txs, i));
                    let c = choose|c: int| first_bad_txid(txs, c);
                    assert(first_bad_txid(txs, c));
                    assert(c == i);
                }
                return Err(MerkleError::BadTxid { txid: pages[p].1[k].txid.clone() });
            },
        }
        p += 1;
    }
    assert(pages@.take(pages@.len() as int) =~= pages@);
    if nodes.len() == 0 {
        assert(txid_hashes(txs).len() == txs.len());
        return Err(MerkleError::NoTransactions);
    }
    assert(txid_hashes(txs).len() == txs.len());
    check_root(merkle_root(&nodes), merkle_root_claimed)
}

} // verus!
