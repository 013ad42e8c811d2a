//! The statements that keep the local database, and what is made of its rows.

pub mod blob_table;
pub mod blobs;
pub mod config;
pub mod filter_laws;
pub mod index;
pub mod index_laws;
pub mod index_row_laws;
pub mod kv_laws;
pub mod outbox;
pub mod outbox_table;
pub mod records;
pub mod row;
pub mod schema;
pub mod statement;
pub mod sync_state;
pub mod table;
pub mod texts;
