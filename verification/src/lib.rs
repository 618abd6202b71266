//! A small ledger indexer: records extracted from blocks are kept in a
//! key-value store under primary and secondary keys, so that they can be
//! queried by signature, by block height, or by participant address.

pub mod args;
pub mod codec;
pub mod extraction;
pub mod finding_transfers;
pub mod finding_votes;
pub mod interface;
pub mod kv;
pub mod record;
pub mod result;
pub mod store;
