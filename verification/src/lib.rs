//! A secondary index store for a ledger of transactions and objects.
//!
//! The store derives ordered tables from the transactions that are
//! committed: transactions by sender, recipient, input object, mutated
//! object and called function; events by module, type, sender and time; and
//! the objects and dynamic fields that are live, by owner and by parent.
//! Every table is a sorted sequence of rows, every query is one page of a
//! scan over a table, and the write path stages the changes of a
//! transaction as one batch that is committed as a whole. Two bounded
//! caches of balances are kept coherent by discarding the entries that a
//! change of ownership makes stale.
//!
//! The contracts are stated over the rows of the tables (`ordered`), the
//! pages of scans (`scan`, `queries`) and the staged batch (`batch`); the
//! laws that relate the operations to each other are proved in `laws` and
//! `event_laws`.

pub mod batch;
pub mod caches;
pub mod event_laws;
pub mod ids;
pub mod indexes;
pub mod keys;
pub mod laws;
pub mod lex;
pub mod ordered;
pub mod queries;
pub mod scan;
pub mod table;
pub mod tables;
pub mod types;

pub use crate::caches::IndexStoreCaches;
pub use crate::indexes::IndexStore;
pub use crate::tables::IndexStoreTables;
pub use crate::types::{ObjectIndexChanges, TotalBalance};
