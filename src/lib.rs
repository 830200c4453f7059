// Crawl orchestration and index synchronization for a personal search engine:
// a crawl queue scheduled under in-flight limits, a search index kept in step
// with the record of indexed URLs, and the decisions of the scheduler and
// worker loops.
use vstd::prelude::*;

pub mod address;
pub mod catalog;
pub mod engine;
pub mod index;
pub mod limits;
pub mod queue;
pub mod scope;
pub mod topology;

verus! {

} // verus!
