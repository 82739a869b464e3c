//! Hexadecimal text, transaction hashes and merkle roots.
use std::str::FromStr;
use vstd::prelude::*;

verus! {

use crate::protocol::hex_digit;

/// Error of `hex::decode`.
#[verifier::external_type_specification]
#[verifier::external_body]
pub struct ExFromHexError(hex::FromHexError);

/// Error of `Txid::from_str` and `TxMerkleNode::from_str`.
#[verifier::external_type_specification]
#[verifier::external_body]
pub struct ExHexToArrayError(bitcoin::hex::HexToArrayError);

/// Every character is a hexadecimal digit.
pub open spec fn all_hex(s: Seq<char>) -> bool {
    forall|i: int| 0 <= i < s.len() ==> hex_digit(#[trigger] s[i]) is Some
}

/// The byte that two hexadecimal digits stand for.
pub open spec fn hex_byte(hi: char, lo: char) -> u8 {
    (hex_digit(hi)->0 * 16 + hex_digit(lo)->0) as u8
}

/// The bytes that a text of digit pairs stands for.
pub open spec fn hex_bytes(s: Seq<char>) -> Option<Seq<u8>> {
    if s.len() % 2 == 0 && all_hex(s) {
        Some(Seq::new(s.len() / 2, |i: int| hex_byte(s[2 * i], s[2 * i + 1])))
    } else {
        None
    }
}

/// The bytes of a hash that is written, as is the custom, last byte first.
pub open spec fn hash_bytes(s: Seq<char>) -> Option<Seq<u8>> {
    if s.len() == 64 {
        match hex_bytes(s) {
            Some(b) => Some(b.reverse()),
            None => None,
        }
    } else {
        None
    }
}

/// Wraps `hex::decode`. It takes pairs of hexadecimal digits of either case, first the
/// high and then the low half of a byte; any other character and an odd length are
/// errors.
#[verifier::external_body]
pub(crate) fn decode_hex(s: &str) -> (r: Result<Vec<u8>, hex::FromHexError>)
    ensures
        match r {
            Ok(b) => hex_bytes(s@) == Some(b@),
            Err(_) => hex_bytes(s@) is None,
        },
{
    hex::decode(s)
}

/// Wraps `Txid::from_str`. It takes exactly 64 hexadecimal digits of either case and
/// keeps the bytes in reverse order.
#[verifier::external_body]
pub(crate) fn decode_txid(s: &str) -> (r: Result<[u8; 32], bitcoin::hex::HexToArrayError>)
    ensures
        match r {
            Ok(b) => hash_bytes(s@) == Some(b@),
            Err(_) => hash_bytes(s@) is None,
        },
{
    bitcoin::Txid::from_str(s).map(|t| bitcoin::hashes::Hash::to_byte_array(t))
}

/// Wraps `TxMerkleNode::from_str`. It takes exactly 64 hexadecimal digits of either case
/// and keeps the bytes in reverse order.
#[verifier::external_body]
pub(crate) fn decode_merkle_node(s: &str) -> (r: Result<[u8; 32], bitcoin::hex::HexToArrayError>)
    ensures
        match r {
            Ok(b) => hash_bytes(s@) == Some(b@),
            Err(_) => hash_bytes(s@) is None,
        },
{
    bitcoin::TxMerkleNode::from_str(s).map(|t| bitcoin::hashes::Hash::to_byte_array(t))
}

/// What `bitcoin::merkle_tree::calculate_root` makes of a list of hashes.
pub uninterp spec fn merkle_root_of(nodes: Seq<Seq<u8>>) -> Option<Seq<u8>>;

/// Hashes as byte sequences.
pub open spec fn hash_views(nodes: Seq<[u8; 32]>) -> Seq<Seq<u8>> {
    nodes.map_values(|n: [u8; 32]| n@)
}

/// Wraps `bitcoin::merkle_tree::calculate_root`, whose result is named `merkle_root_of`.
/// There is a root exactly where there are hashes, and that of one hash is the hash
/// itself. How the hashes of a longer list are combined is not said.
#[verifier::external_body]
pub(crate) fn merkle_root(nodes: &Vec<[u8; 32]>) -> (r: Option<[u8; 32]>)
    ensures
        match r {
            Some(b) => merkle_root_of(hash_views(nodes@)) == Some(b@),
            None => merkle_root_of(hash_views(nodes@)) is None,
        },
        r is None <==> nodes@.len() == 0,
        nodes@.len() == 1 ==> r == Some(nodes@[0]),
{
    let hashes = nodes.iter().map(|n| {
        <bitcoin::TxMerkleNode as bitcoin::hashes::Hash>::from_byte_array(*n)
    });
    bitcoin::merkle_tree::calculate_root(hashes).map(|r| bitcoin::hashes::Hash::to_byte_array(r))
}

} // verus!
