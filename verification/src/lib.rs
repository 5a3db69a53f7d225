//! A verified library for managing a personal store of named configuration
//! files. Entries are ingested by stripping blank and comment lines, every
//! change is paired with a revision message, and the store operations
//! (`add`, `update`, `remove`, `list`, `show`) carry exact contracts over a
//! map model of the store.

pub mod bytes;
pub mod filter;
pub mod laws;
pub mod naming;
pub mod revision;
pub mod store;
