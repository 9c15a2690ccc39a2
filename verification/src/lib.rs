//! A versioned database schema migration engine.
//!
//! Migration units live in a `migrations` directory, one folder per unit,
//! named `{version}_{name}` and holding exactly an `up.sql` and a `down.sql`
//! procedure. The engine discovers units on disk, reconciles them against the
//! persisted table of applied versions, and applies or reverts each unit in
//! its own transaction scope.
//!
//! The two outside collaborators — the filesystem and the database
//! connection — enter the engine as explicit values: a [`source::Filesystem`]
//! snapshot of the directories of interest, and a [`store::DbConn`] holding
//! the tracking table together with the statements the backend has committed.
//! A caller that runs against a real disk and a real backend reads the disk
//! into a `Filesystem`, drives the same decisions, and performs the committed
//! statements.

pub mod error;
pub mod integers;
pub mod laws;
pub mod locator;
pub mod runner;
pub mod migration;
pub mod order;
pub mod path;
pub mod source;
pub mod store;
