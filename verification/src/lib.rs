//! Course-availability synchronization engine: a heuristic markup-to-record
//! extractor, a points-filter expression language, an add/remove
//! reconciliation algorithm over a code-keyed course store, and an
//! append-only run ledger, with the behaviour of each part stated in its
//! contracts.

pub mod config;
pub mod console;
pub mod cycle;
pub mod diff;
pub mod dom;
pub mod extract;
pub mod filter;
pub mod ledger;
pub mod models;
pub mod page;
pub mod phone;
pub mod points;
pub mod store;
pub mod sync;
pub mod text;
pub mod web;
