//! A Bitcoin chain indexer core: batches built from decoded blocks, the
//! merge rules of the transaction-output table, the persistent schema's key
//! and value encodings, and the balance read paths, with verified contracts.

pub mod account;
pub mod api;
pub mod batch;
pub mod block;
pub mod codec;
pub mod fetch;
pub mod hash;
pub mod id;
pub mod laws;
pub mod script;
pub mod sorted_vec;
pub mod store;
pub mod types;
