//! Leaf-side search execution engine.
//!
//! A leaf node owns a catalog of immutable index artifacts ("splits"). Given a
//! search request fanned out from a root node, the leaf rewrites the query
//! against each split's metadata, orders and prunes splits that cannot improve
//! the running top-K, caches split footers and per-split results, plans the
//! warmup (prefetch) work a query needs, and merges per-split partial results
//! into a single response.
//!
//! The asynchronous plumbing (blob fetches, task spawning, the CPU thread
//! pool) lives outside this crate; this crate holds the decision logic and the
//! data structures, each with a verified contract.

pub mod bounds;
pub mod executor;
pub mod filter;
pub mod footer_cache;
pub mod lex;
pub mod merge;
pub mod metastore;
pub mod query_ast;
pub mod request;
pub mod result_cache;
pub mod rewrite;
pub mod sort;
pub mod soundness;
pub mod warmup;

pub use bounds::TimeBound;
