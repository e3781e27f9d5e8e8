//! Reconciliation rules for a book library that lives in three places: a
//! catalog store, a companion store of shelves and device-sync bookkeeping,
//! and a directory tree.
//!
//! The stores are held as plain rows ([`catalog::Catalog`],
//! [`companion::Companion`]); every operation on them carries a contract
//! that Verus proves, and the laws that relate operations are proof
//! functions beside them. Reading and writing the databases and the
//! directory tree is the caller's part.
//!
//! - [`text`], [`extract`], [`validate`], [`paths`]: sort keys, language
//!   codes, what a book's metadata names, checks on ids and names, and the
//!   comparison of paths.
//! - [`catalog`], [`upsert`]: entities found or created, and the import of a
//!   book: create, update or leave alone.
//! - [`shelves`]: putting a book on a user's shelf.
//! - [`deletion`]: removing a book from both stores.
//! - [`sweep`], [`times`], [`repair`], [`sync`]: the consistency sweep, its
//!   orphan pass and its repair pass.
//! - [`files`], [`listing`]: the decisions of file placement, and what the
//!   listings select.
//! - [`outside`]: the calls into other crates, whose contracts are taken on
//!   trust.
pub mod catalog;
pub mod companion;
pub mod deletion;
pub mod extract;
pub mod files;
pub mod listing;
pub mod models;
pub mod outside;
pub mod paths;
pub mod repair;
pub mod rows;
pub mod shelves;
pub mod sweep;
pub mod sync;
pub mod text;
pub mod times;
pub mod upsert;
pub mod validate;
