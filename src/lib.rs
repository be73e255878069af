//! Indexing of a documentation site: a site map is decompressed and parsed
//! into location records, unwanted sections are filtered out while streaming,
//! and the result is kept in a disk cache of immutable snapshot files that a
//! periodic sweep expires.
//!
//! - `url_entry`: the record and the builder that accumulates one record.
//! - `ignore`: exact and prefix rules that exclude locations.
//! - `ingest`: drives the builder and the filter over the events of a site map.
//! - `mdn`: the documentation site: its site map, its rules, page summaries.
//! - `snapshot`: the binary form of a sequence of records.
//! - `cache`: snapshot file names, choice of the latest file, what a load yields.
//! - `evict`: which snapshot files a sweep deletes.
use vstd::prelude::*;

pub mod cache;
pub mod evict;
pub mod ignore;
pub mod ingest;
pub mod mdn;
pub mod snapshot;
pub mod url_entry;

verus! {

} // verus!
