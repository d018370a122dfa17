//! A column store with reference counted values, transactions, and the records
//! of the state that live on top of it.
//!
//! - [`store`] reads columns and commits updates to a [`database`]; what an
//!   update does is said by its [`transaction`], what a count does by
//!   [`refcount`], and what holds of them together by [`laws`] and
//!   [`store_laws`].
//! - [`state`] reads and writes accounts, access keys, receipts and contracts
//!   under the keys of [`trie_key`] in a [`trie_update`]; what holds of them
//!   together is said by [`state_laws`].
//! - [`genesis`] and [`contract_cache`] keep single records in the store, and
//!   [`dump`] is the file form of a column. The layouts in bytes and in text are
//!   said by [`format_laws`].
//! - [`fake_client`] writes down the messages of the network for tests.

pub mod base58;
pub mod borsh_format;
pub mod bytes;
pub mod codec;
pub mod columns;
pub mod config;
pub mod contract_cache;
pub mod database;
pub mod dump;
pub mod error;
pub mod fake_client;
pub mod format_laws;
pub mod genesis;
pub mod laws;
pub mod plain_records;
pub mod refcount;
pub mod state;
pub mod state_laws;
pub mod store;
pub mod store_laws;
pub mod table;
pub mod transaction;
pub mod trie_key;
pub mod trie_update;
pub mod tries;
pub mod types;

pub use columns::DBCol;
pub use config::{StoreConfig, StoreOpener};
pub use contract_cache::StoreCompiledContractCache;
pub use error::StorageError;
pub use store::{Store, StoreUpdate};
pub use trie_update::{Trie, TrieUpdate};
pub use tries::ShardTries;
