//! What the Bitcoin Core node sends, and how it is read.
use vstd::prelude::*;

use crate::source::{EsploraTxFull, EsploraVin, EsploraVout};
use crate::text::same_text;

verus! {

use crate::ledger::Text;
use crate::source::{TxFullModel, VinModel, VoutModel};
use crate::views::{view_option, views};

/// How the node is reached.
#[derive(Debug, PartialEq, Eq)]
pub struct CoreRpcConfig {
    pub url: String,
    pub user: String,
    pub password: String,
}

/// A block header's hash, height and time.
#[derive(Debug, PartialEq, Eq)]
pub struct BlockHeader {
    pub hash: String,
    pub height: u32,
    /// Unix seconds, set by the miner.
    pub time: u64,
}

/// Where a transaction stands.
#[derive(Debug, PartialEq, Eq)]
pub struct RawTxStatus {
    /// The block that it is in, if any.
    pub blockhash: Option<String>,
    pub confirmations: u32,
    /// The time of that block.
    pub blocktime: Option<u64>,
}

/// How far the node is.
#[derive(Debug, Clone, Copy, PartialEq, Eq)]
pub struct BlockchainInfo {
    /// Height that the node has verified.
    pub blocks: u32,
    /// Height of the best header that it knows.
    pub headers: u32,
    pub initial_block_download: bool,
}

/// An unspent output that a scan found. Its value is in sats.
#[derive(Debug, PartialEq, Eq)]
pub struct ScanTxOutEntry {
    pub txid: String,
    pub vout: u32,
    pub sats: u64,
    pub height: u32,
}

/// What a scan for unspent outputs found.
#[derive(Debug, PartialEq, Eq)]
pub struct ScanTxOutResult {
    /// Whether the scan ran to its end.
    pub success: bool,
    /// Tip height at the time of the scan.
    pub height: u32,
    pub unspents: Vec<ScanTxOutEntry>,
}

// ---------------------------------------------------------------------------
// Replies.
// ---------------------------------------------------------------------------

/// An error that the node reports.
#[derive(Debug, PartialEq, Eq)]
pub struct RpcError {
    pub code: i64,
    pub message: String,
}

/// The envelope of a reply.
pub struct RpcResponse<T> {
    pub result: Option<T>,
    pub error: Option<RpcError>,
}

/// Whether a reply with this HTTP status is read. The node reports errors of a method
/// with status 500 and a body that says which; any other status that is not a success is
/// a failure of the transport.
pub fn is_readable_status(status: u16) -> (r: bool)
    ensures
        r == ((200 <= status && status < 300) || status == 500),
{
    (200 <= status && status < 300) || status == 500
}

/// The error text of a reply that reports an error.
pub open spec fn method_error(method: Text, message: Text) -> Text {
    "core-rpc "@ + method + " error: "@ + message
}

/// The error text of an empty reply.
pub open spec fn empty_reply(method: Text) -> Text {
    "core-rpc "@ + method + " returned neither result nor error"@
}

/// Opens the envelope of a reply: an error comes first, and one of the two must be there.
pub fn open_reply<T>(method: &str, reply: RpcResponse<T>) -> (r: Result<T, String>)
    ensures
        match reply.error {
            Some(e) => r matches Err(m) && m@ == method_error(method@, e.message@),
            None => match reply.result {
                Some(v) => r == Ok::<T, String>(v),
                None => r matches Err(m) && m@ == empty_reply(method@),
            },
        },
{
    if let Some(e) = reply.error {
        let mut m = "core-rpc ".to_owned();
        m.append(method);
        m.append(" error: ");
        m.append(&e.message);
        return Err(m);
    }
    match reply.result {
        Some(v) => Ok(v),
        None => {
            let mut m = "core-rpc ".to_owned();
            m.append(method);
            m.append(" returned neither result nor error");
            Err(m)
        },
    }
}

// ---------------------------------------------------------------------------
// Blocks.
// ---------------------------------------------------------------------------

/// A script as the node describes it.
#[derive(Debug, PartialEq, Eq)]
pub struct CoreScriptPubKey {
    pub hex: String,
    /// The node's name for the script's type.
    pub ty: String,
    /// The address, in newer versions of the node.
    pub address: Option<String>,
    /// The addresses, in older ones.
    pub addresses: Option<Vec<String>>,
}

/// An output that is spent. Its value is in sats.
#[derive(Debug, PartialEq, Eq)]
pub struct CorePrevout {
    pub sats: u64,
    pub script_pub_key: CoreScriptPubKey,
}

/// An input.
#[derive(Debug, PartialEq, Eq)]
pub struct CoreVin {
    /// Empty on a coinbase input.
    pub txid: String,
    pub vout: u32,
    pub prevout: Option<CorePrevout>,
}

/// An output. Its value is in sats.
#[derive(Debug, PartialEq, Eq)]
pub struct CoreVout {
    pub sats: u64,
    pub script_pub_key: CoreScriptPubKey,
}

/// A transaction.
#[derive(Debug, PartialEq, Eq)]
pub struct CoreTx {
    pub txid: String,
    pub vin: Vec<CoreVin>,
    pub vout: Vec<CoreVout>,
}

/// A block.
#[derive(Debug, PartialEq, Eq)]
pub struct CoreBlockV3 {
    pub merkleroot: String,
    /// Number of transactions; zero where the node does not say.
    pub n_tx: u32,
    pub tx: Vec<CoreTx>,
}

/// The address of a script: the single one, or else the first of several.
pub open spec fn primary_address_of(s: CoreScriptPubKey) -> Option<Text> {
    match s.address {
        Some(a) => Some(a@),
        None => match s.addresses {
            Some(list) => if list@.len() > 0 {
                Some(list@[0]@)
            } else {
                None
            },
            None => None,
        },
    }
}

impl CoreScriptPubKey {
    /// The address of the script, where it has one.
    pub fn primary_address(&self) -> (r: Option<String>)
        ensures
            view_option(r) == primary_address_of(*self),
    {
        if let Some(a) = &self.address {
            return Some(a.clone());
        }
        if let Some(list) = &self.addresses {
            if list.len() > 0 {
                return Some(list[0].clone());
            }
        }
        None
    }
}

/// The library's name for a script type. Names that it has no other for are kept.
pub open spec fn script_type_of(ty: Text) -> Text {
    if ty == "nulldata"@ {
        "op_return"@
    } else if ty == "witness_v0_keyhash"@ {
        "v0_p2wpkh"@
    } else if ty == "witness_v0_scripthash"@ {
        "v0_p2wsh"@
    } else if ty == "witness_v1_taproot"@ {
        "v1_p2tr"@
    } else if ty == "pubkeyhash"@ {
        "p2pkh"@
    } else if ty == "scripthash"@ {
        "p2sh"@
    } else {
        ty
    }
}

/// The library's name for a script type of the node.
pub fn normalize_script_type(core_ty: &str) -> (r: String)
    ensures
        r@ == script_type_of(core_ty@),
{
    if same_text(core_ty, "nulldata") {
        "op_return".to_owned()
    } else if same_text(core_ty, "witness_v0_keyhash") {
        "v0_p2wpkh".to_owned()
    } else if same_text(core_ty, "witness_v0_scripthash") {
        "v0_p2wsh".to_owned()
    } else if same_text(core_ty, "witness_v1_taproot") {
        "v1_p2tr".to_owned()
    } else if same_text(core_ty, "pubkeyhash") {
        "p2pkh".to_owned()
    } else if same_text(core_ty, "scripthash") {
        "p2sh".to_owned()
    } else {
        core_ty.to_owned()
    }
}

/// An output of value `sats` with this script.
pub open spec fn output_of(sats: u64, s: CoreScriptPubKey) -> VoutModel {
    VoutModel {
        address: primary_address_of(s),
        value: sats,
        script: s.hex@,
        kind: script_type_of(s.ty@),
    }
}

/// An input as the library has it.
pub open spec fn input_of(v: CoreVin) -> VinModel {
    VinModel {
        txid: v.txid@,
        vout: v.vout,
        prevout: match v.prevout {
            Some(p) => Some(output_of(p.sats, p.script_pub_key)),
            None => None,
        },
    }
}

/// A transaction as the library has it.
pub open spec fn tx_of(t: CoreTx) -> TxFullModel {
    TxFullModel {
        txid: t.txid@,
        vin: t.vin@.map_values(|v: CoreVin| input_of(v)),
        vout: t.vout@.map_values(|v: CoreVout| output_of(v.sats, v.script_pub_key)),
    }
}

fn adapt_output(sats: u64, s: &CoreScriptPubKey) -> (r: EsploraVout)
    ensures
        r@ == output_of(sats, *s),
{
    EsploraVout {
        scriptpubkey_address: s.primary_address(),
        value: sats,
        scriptpubkey: s.hex.clone(),
        scriptpubkey_type: normalize_script_type(&s.ty),
    }
}

fn adapt_input(v: &CoreVin) -> (r: EsploraVin)
    ensures
        r@ == input_of(*v),
{
    EsploraVin {
        txid: v.txid.clone(),
        vout: v.vout,
        prevout: match &v.prevout {
            Some(p) => Some(adapt_output(p.sats, &p.script_pub_key)),
            None => None,
        },
    }
}

fn adapt_tx(t: &CoreTx) -> (r: EsploraTxFull)
    ensures
        r@ == tx_of(*t),
{
    let mut vin: Vec<EsploraVin> = Vec::new();
    let mut i: usize = 0;
    while i < t.vin.len()
        invariant
            i <= t.vin@.len(),
            vin@.len() == i,
            forall|j: int| 0 <= j < i ==> (#[trigger] vin@[j])@ == input_of(t.vin@[j]),
        decreases t.vin@.len() - i,
    {
        vin.push(adapt_input(&t.vin[i]));
        i += 1;
    }
    let mut vout: Vec<EsploraVout> = Vec::new();
    let mut k: usize = 0;
    while k < t.vout.len()
        invariant
            k <= t.vout@.len(),
            vout@.len() == k,
            forall|j: int|
                0 <= j < k ==> (#[trigger] vout@[j])@ == output_of(
                    t.vout@[j].sats,
                    t.vout@[j].script_pub_key,
                ),
        decreases t.vout@.len() - k,
    {
        vout.push(adapt_output(t.vout[k].sats, &t.vout[k].script_pub_key));
        k += 1;
    }
    let r = EsploraTxFull { txid: t.txid.clone(), vin, vout };
    proof {
        assert(r@.vin =~= tx_of(*t).vin);
        assert(r@.vout =~= tx_of(*t).vout);
    }
    r
}

/// The transactions of a block, the merkle root in its header, and the number of
/// transactions: the node's, or that of the list where the node does not say.
pub fn adapt_block(block: &CoreBlockV3) -> (r: (Vec<EsploraTxFull>, String, u32))
    ensures
        views(r.0@) == block.tx@.map_values(|t: CoreTx| tx_of(t)),
        r.1@ == block.merkleroot@,
        r.2 == (if block.n_tx > 0 {
            block.n_tx
        } else {
            block.tx@.len() as u32
        }),
{
    let mut out: Vec<EsploraTxFull> = Vec::new();
    let mut i: usize = 0;
    while i < block.tx.len()
        invariant
            i <= block.tx@.len(),
            out@.len() == i,
            forall|j: int| 0 <= j < i ==> (#[trigger] out@[j])@ == tx_of(block.tx@[j]),
        decreases block.tx@.len() - i,
    {
        out.push(adapt_tx(&block.tx[i]));
        i += 1;
    }
    assert(views(out@) =~= block.tx@.map_values(|t: CoreTx| tx_of(t)));
    let n_tx: u32 = if block.n_tx > 0 {
        block.n_tx
    } else {
        block.tx.len() as u32
    };
    (out, block.merkleroot.clone(), n_tx)
}

} // verus!
