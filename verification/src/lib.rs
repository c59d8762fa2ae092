//! An embedded document database: collections of documents, queries,
//! updates, transactions and a request protocol, with verified contracts.
pub mod commands;
pub mod db;
pub mod error;
pub mod frame;
pub mod laws;
pub mod model;
pub mod oid;
pub mod query;
pub mod results;
pub mod store;
pub mod update;
pub mod value;
