//! Merging a treebank's dominance structure into an annotation graph.
//!
//! The library reconstructs ordered token sequences from two independently
//! produced sources, aligns them positionally, grows the merged node and edge
//! set upward from aligned words through the dominance tree, and emits the
//! resulting update instructions together with the string transformations
//! (annotation sanitization, corpus renaming, configuration splicing) that
//! the merge needs.

pub mod assoc;
pub mod error;
pub mod inbound;
pub mod merge;
pub mod outbound;
pub mod rem;
pub mod rename;
pub mod text;
