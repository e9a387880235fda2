//! The outbound side: update instructions for the target store and the
//! corpus-level transformations that precede export.

pub mod annis;
