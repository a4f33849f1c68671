//! Verified core of a multi-tenant full-text search engine: memory budgeting,
//! memory pressure, schema definitions, document values and their conversion
//! into the engine's documents with facet paths, synonyms, query rules, index
//! settings, the merging and paging of search hits, write batching, oplog
//! recovery, task bookkeeping and snapshot retention.
use vstd::prelude::*;

pub mod converter;
pub mod document;
pub mod error;
pub mod memory;
pub mod memory_observer;
pub mod recovery;
pub mod rules;
pub mod s3;
pub mod search;
pub mod schema;
pub mod search_schema;
pub mod settings;
pub mod synonyms;
pub mod tasks;
pub mod text;
pub mod write_queue;

verus! {

} // verus!
