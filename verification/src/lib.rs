//! A read-only query engine for database files in the SQLite 3 format.
//!
//! The crate decodes the file header, the four b-tree page variants and
//! their cells, walks table and index b-trees, and answers a small `SELECT`
//! dialect. Every function carries a contract over a mathematical model of
//! the bytes of the file.
//!
//! From the bytes up: `varint` and `bytes` read integers, `header` the file
//! header, `record` and `cell` the contents of a page, `page` a page, and
//! `sqlite` keeps the pages of a file. `btree` walks tables and indexes,
//! `database` holds the catalog, `sql` reads statements and `query` runs
//! them. `search` and `entries` state what holds of well-formed trees.

pub mod btree;
pub mod bytes;
pub mod cell;
pub mod database;
pub mod entries;
pub mod error;
pub mod header;
pub mod page;
pub mod page_type;
pub mod query;
pub mod record;
pub mod search;
pub mod sorting;
pub mod sql;
pub mod sqlite;
pub mod text;
pub mod varint;
