//! A crawler/mirror/validator pipeline for security-advisory and SBOM feeds.
//!
//! The library holds the verified core of the pipeline: discovery of
//! documents from a provider's metadata, the incremental-sync (`since`)
//! filter, digest and signature bookkeeping, the validation decisions, and
//! the canonical on-disk store layout that lets a prior run's output serve
//! as the next run's input. All network and filesystem I/O is performed by
//! the surrounding application, which hands this library plain values.

use vstd::prelude::*;

pub mod changes;
pub mod checks;
pub mod metadata;
pub mod provider;
pub mod retrieve;
pub mod rolie;
pub mod send;
pub mod store;
pub mod since;
pub mod skip;
pub mod validate;
pub mod discover;
pub mod errors;
pub mod filesource;
pub mod httpsource;
pub mod json;
pub mod lits;
pub mod text;
pub mod timestamp;
pub mod urls;
pub mod walker;
