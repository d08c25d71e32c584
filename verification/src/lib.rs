//! Template references, the revision cache manifest and the ordering of
//! action suites, each stated over a mathematical model and proved against it.

pub mod actions;
pub mod cache;
pub mod checkout;
pub mod config;
pub mod document;
pub mod entry;
pub mod grammar;
pub mod graph;
pub mod manifest;
pub mod oid;
pub mod order;
pub mod refs;
pub mod repository;
pub mod search;
pub mod text;
