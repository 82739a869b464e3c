use luckyprotocol_indexer::core_rpc::{
    adapt_block, is_readable_status, normalize_script_type, open_reply, CoreBlockV3, CorePrevout,
    CoreScriptPubKey, CoreTx, CoreVin, CoreVout, RpcError, RpcResponse,
};

fn script(ty: &str, address: Option<&str>, addresses: Option<Vec<&str>>) -> CoreScriptPubKey {
    CoreScriptPubKey {
        hex: "6a".to_string(),
        ty: ty.to_string(),
        address: address.map(|a| a.to_string()),
        addresses: addresses.map(|l| l.iter().map(|a| a.to_string()).collect()),
    }
}

#[test]
fn the_single_address_comes_first() {
    assert_eq!(script("", Some("a"), Some(vec!["b"])).primary_address(), Some("a".to_string()));
    assert_eq!(script("", None, Some(vec!["b", "c"])).primary_address(), Some("b".to_string()));
    assert_eq!(script("", None, Some(vec![])).primary_address(), None);
    assert_eq!(script("", None, None).primary_address(), None);
}

#[test]
fn script_types_are_renamed() {
    assert_eq!(normalize_script_type("nulldata"), "op_return");
    assert_eq!(normalize_script_type("witness_v0_keyhash"), "v0_p2wpkh");
    assert_eq!(normalize_script_type("witness_v0_scripthash"), "v0_p2wsh");
    assert_eq!(normalize_script_type("witness_v1_taproot"), "v1_p2tr");
    assert_eq!(normalize_script_type("pubkeyhash"), "p2pkh");
    assert_eq!(normalize_script_type("scripthash"), "p2sh");
    assert_eq!(normalize_script_type("nonstandard"), "nonstandard");
}

fn block(n_tx: u32) -> CoreBlockV3 {
    CoreBlockV3 {
        merkleroot: "root".to_string(),
        n_tx,
        tx: vec![CoreTx {
            txid: "t".to_string(),
            vin: vec![
                CoreVin { txid: String::new(), vout: 0, prevout: None },
                CoreVin {
                    txid: "p".to_string(),
                    vout: 3,
                    prevout: Some(CorePrevout {
                        sats: 12,
                        script_pub_key: script("pubkeyhash", Some("x"), None),
                    }),
                },
            ],
            vout: vec![CoreVout { sats: 5, script_pub_key: script("nulldata", None, None) }],
        }],
    }
}

#[test]
fn a_block_is_adapted() {
    let (txs, root, n) = adapt_block(&block(9));
    assert_eq!((root.as_str(), n), ("root", 9));
    assert_eq!(txs.len(), 1);
    assert_eq!(txs[0].txid, "t");
    assert_eq!(txs[0].vin[0].txid, "");
    assert!(txs[0].vin[0].prevout.is_none());
    let p = txs[0].vin[1].prevout.as_ref().unwrap();
    assert_eq!((p.value, p.scriptpubkey_type.as_str()), (12, "p2pkh"));
    assert_eq!(p.scriptpubkey_address, Some("x".to_string()));
    assert_eq!(txs[0].vin[1].vout, 3);
    assert_eq!(txs[0].vout[0].scriptpubkey_type, "op_return");
    assert_eq!(txs[0].vout[0].scriptpubkey, "6a");
    assert_eq!(txs[0].vout[0].value, 5);
    // A node that does not say how many there are.
    assert_eq!(adapt_block(&block(0)).2, 1);
}

fn error(message: &str) -> Option<RpcError> {
    Some(RpcError { code: -8, message: message.to_string() })
}

#[test]
fn replies_are_opened() {
    let good = RpcResponse { result: Some(7u64), error: None };
    assert_eq!(open_reply("getblockcount", good), Ok(7));
    let bad = RpcResponse { result: Some(7u64), error: error("boom") };
    assert_eq!(open_reply("getblock", bad), Err("core-rpc getblock error: boom".to_string()));
    let empty: RpcResponse<u64> = RpcResponse { result: None, error: None };
    assert_eq!(
        open_reply("getblock", empty),
        Err("core-rpc getblock returned neither result nor error".to_string())
    );
}

#[test]
fn errors_of_a_method_come_with_status_500() {
    assert!(is_readable_status(200));
    assert!(is_readable_status(299));
    assert!(is_readable_status(500));
    assert!(!is_readable_status(199));
    assert!(!is_readable_status(300));
    assert!(!is_readable_status(401));
    assert!(!is_readable_status(503));
}
