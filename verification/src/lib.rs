//! A verified filename-search core: multi-pattern substring matching over
//! include and exclude pattern sets, pure entry filtering, a depth-bounded
//! pruning traversal over a directory snapshot, and summary statistics.
pub mod engine;
pub mod filter;
pub mod matcher;
pub mod request;
pub mod stats;
pub mod text;
pub mod tree;
