//! The two annotation sources: the tree source's relational facts and the
//! target graph's modeled relations.

pub mod annis;
pub mod ttl;
