//! State machine of a UTXO-bound token protocol carried in `OP_RETURN` outputs.
pub mod apply;
pub mod blocks;
pub mod chain;
pub mod core_rpc;
pub mod grammar;
pub mod hashing;
pub mod heights;
pub mod indexer;
pub mod laws;
pub mod ledger;
pub mod listings;
pub mod order;
pub mod poller;
pub mod polling;
pub mod protocol;
pub mod replies;
pub mod rules;
pub mod server;
pub mod source;
pub mod strmap;
pub mod sums;
pub mod text;
pub mod views;
