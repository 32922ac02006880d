//! A read-only filesystem view of one immutable snapshot tree.
//!
//! The library holds the logic that sits between a kernel filesystem bridge
//! and a path-addressed tree store: the bidirectional path/inode table, the
//! translation of store metadata into file attributes, and the request
//! handlers that combine the two.

pub mod adapter;
pub mod attr;
pub mod table;
