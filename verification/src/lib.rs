//! Local package-metadata cache and query engine for a package-repository
//! client: a sharded index over repository records, exact and fuzzy lookup,
//! an outdated-set computation, and per-package version freshness checks.

pub mod checker;
pub mod cmd;
pub mod config;
pub mod codec;
pub mod diff;
pub mod digits;
pub mod index;
pub mod jsonparse;
pub mod keys;
pub mod listing;
pub mod query;
pub mod record;
pub mod settings;
pub mod store;
pub mod text;
pub mod theme;
