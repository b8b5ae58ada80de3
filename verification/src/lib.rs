//! A storage engine for repositories: per-user trees of directories and
//! files with a trash, a store of content objects that files share, the
//! encoding of names and paths, and the rules of who may read, change or
//! add to a repository.
//!
//! The engine works on a [`database::Database`], a row store that it holds
//! in memory. Each operation states in its contract what it returns and how
//! it changes the store, over the mathematical value of the store; the laws
//! that relate the operations are proved in [`database::laws`],
//! [`permissions`] and [`types::percent`].

pub mod config;
pub mod database;
pub mod error;
pub mod permissions;
pub mod static_files;
pub mod types;
