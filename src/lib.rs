//! An incremental static-site builder: input cells keyed by canonical path,
//! a memoizing query engine with early cutoff and cycle detection, per-build
//! diagnostics, and the page-level logic (tag index, ordering, URLs, asset
//! naming and URL rewriting) that the derivations compute.

pub mod article;
pub mod assets;
pub mod date;
pub mod diag;
pub mod engine;
pub mod links;
pub mod output;
pub mod paths;
pub mod render;
pub mod site;
pub mod store;
pub mod watch;
