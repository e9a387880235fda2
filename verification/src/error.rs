//! The fatal conditions of a merge run.
//!
//! Every fallible function of the library returns one of these variants; the
//! contracts state, per function, exactly which inputs produce which variant.

use vstd::prelude::*;

verus! {

/// Spec-level image of a [`MergeError`], with every name or value carried as
/// its character sequence.
pub ghost enum ErrView {
    /// The tree source has no sentence that is never the target of a
    /// next-sentence link.
    NoSentenceChainHead,
    /// More than one sentence could head the next-sentence chain.
    AmbiguousSentenceChainHead,
    /// The next-sentence chain revisits a node.
    CyclicSentenceChain,
    /// A sentence has words, but none of them could head the next-word chain.
    NoWordChainHead(Seq<char>),
    /// More than one word of one sentence could head the next-word chain.
    AmbiguousWordChainHead(Seq<char>),
    /// The next-word chain revisits a node.
    CyclicWordChain(Seq<char>),
    /// The target graph has no token-order relation.
    MissingOrderingComponent,
    /// The token-order relation has no root.
    MissingOrderingRoot,
    /// The token-order relation has more than one root.
    MultipleOrderingRoots,
    /// A non-terminal token has more than one order successor.
    MultipleOrderingSuccessors(u64),
    /// The token-order relation revisits a token.
    CyclicOrdering,
    /// A graph node carries no canonical name annotation.
    MissingNodeName(u64),
    /// A shared annotation differs between the two aligned token streams:
    /// annotation name, tree node, graph node, tree value, graph value.
    SanityMismatch(Seq<char>, Seq<char>, Seq<char>, Seq<char>, Seq<char>),
    /// A tree-source word has no counterpart in the target graph.
    UnalignedWord(Seq<char>),
    /// A tree-source word was never aligned to a graph node.
    MissingMapping(Seq<char>),
    /// A non-word tree node's name holds no path separator.
    NameWithoutSlash(Seq<char>),
    /// A triple's subject is not a named node (the predicate is carried).
    SubjectNotNamed(Seq<char>),
    /// A triple's object is not a named node (the predicate is carried).
    ObjectNotNamed(Seq<char>),
    /// A triple's object is not a simple literal (the predicate is carried).
    ObjectNotLiteral(Seq<char>),
    /// More than one tree-source file matches one document name.
    AmbiguousDocumentFile(Seq<char>),
    /// A document node's name holds no path separator.
    InvalidDocumentNodeName(Seq<char>),
    /// A rename pattern lacks the corpus-name placeholder.
    PatternWithoutPlaceholder(Seq<char>),
    /// A node name's prefix is not the encoded corpus name: found, expected.
    UnexpectedCorpusName(Seq<char>, Seq<char>),
    /// A node name is neither the corpus name nor prefixed by it.
    UnexpectedNodeName(Seq<char>),
    /// A query match holds an unexpected number of nodes.
    BadMatchArity,
    /// The exported corpus holds no configuration section.
    NoConfigSection,
    /// The exported corpus holds more than one configuration section.
    MultipleConfigSections,
}

/// A fatal condition: the run aborts, and nothing of the current corpus is
/// flushed to the output.
#[derive(Debug)]
pub enum MergeError {
    NoSentenceChainHead,
    AmbiguousSentenceChainHead,
    CyclicSentenceChain,
    NoWordChainHead { sentence: String },
    AmbiguousWordChainHead { sentence: String },
    CyclicWordChain { sentence: String },
    MissingOrderingComponent,
    MissingOrderingRoot,
    MultipleOrderingRoots,
    MultipleOrderingSuccessors { token: u64 },
    CyclicOrdering,
    MissingNodeName { node: u64 },
    SanityMismatch {
        anno_name: String,
        tree_node: String,
        graph_node: String,
        tree_value: String,
        graph_value: String,
    },
    UnalignedWord { tree_node: String },
    MissingMapping { tree_node: String },
    NameWithoutSlash { tree_node: String },
    SubjectNotNamed { predicate: String },
    ObjectNotNamed { predicate: String },
    ObjectNotLiteral { predicate: String },
    AmbiguousDocumentFile { doc_name: String },
    InvalidDocumentNodeName { node_name: String },
    PatternWithoutPlaceholder { pattern: String },
    UnexpectedCorpusName { found: String, expected: String },
    UnexpectedNodeName { node_name: String },
    BadMatchArity,
    NoConfigSection,
    MultipleConfigSections,
}

impl View for MergeError {
    type V = ErrView;

    open spec fn view(&self) -> ErrView {
        match self {
            MergeError::NoSentenceChainHead => ErrView::NoSentenceChainHead,
            MergeError::AmbiguousSentenceChainHead => ErrView::AmbiguousSentenceChainHead,
            MergeError::CyclicSentenceChain => ErrView::CyclicSentenceChain,
            MergeError::NoWordChainHead { sentence } => ErrView::NoWordChainHead(sentence@),
            MergeError::AmbiguousWordChainHead { sentence } => ErrView::AmbiguousWordChainHead(
                sentence@,
            ),
            MergeError::CyclicWordChain { sentence } => ErrView::CyclicWordChain(sentence@),
            MergeError::MissingOrderingComponent => ErrView::MissingOrderingComponent,
            MergeError::MissingOrderingRoot => ErrView::MissingOrderingRoot,
            MergeError::MultipleOrderingRoots => ErrView::MultipleOrderingRoots,
            MergeError::MultipleOrderingSuccessors { token } => ErrView::MultipleOrderingSuccessors(
                *token,
            ),
            MergeError::CyclicOrdering => ErrView::CyclicOrdering,
            MergeError::MissingNodeName { node } => ErrView::MissingNodeName(*node),
            MergeError::SanityMismatch { anno_name, tree_node, graph_node, tree_value, graph_value }
                => ErrView::SanityMismatch(
                anno_name@,
                tree_node@,
                graph_node@,
                tree_value@,
                graph_value@,
            ),
            MergeError::UnalignedWord { tree_node } => ErrView::UnalignedWord(tree_node@),
            MergeError::MissingMapping { tree_node } => ErrView::MissingMapping(tree_node@),
            MergeError::NameWithoutSlash { tree_node } => ErrView::NameWithoutSlash(tree_node@),
            MergeError::SubjectNotNamed { predicate } => ErrView::SubjectNotNamed(predicate@),
            MergeError::ObjectNotNamed { predicate } => ErrView::ObjectNotNamed(predicate@),
            MergeError::ObjectNotLiteral { predicate } => ErrView::ObjectNotLiteral(predicate@),
            MergeError::AmbiguousDocumentFile { doc_name } => ErrView::AmbiguousDocumentFile(
                doc_name@,
            ),
            MergeError::InvalidDocumentNodeName { node_name } => ErrView::InvalidDocumentNodeName(
                node_name@,
            ),
            MergeError::PatternWithoutPlaceholder { pattern } => ErrView::PatternWithoutPlaceholder(
                pattern@,
            ),
            MergeError::UnexpectedCorpusName { found, expected } => ErrView::UnexpectedCorpusName(
                found@,
                expected@,
            ),
            MergeError::UnexpectedNodeName { node_name } => ErrView::UnexpectedNodeName(node_name@),
            MergeError::BadMatchArity => ErrView::BadMatchArity,
            MergeError::NoConfigSection => ErrView::NoConfigSection,
            MergeError::MultipleConfigSections => ErrView::MultipleConfigSections,
        }
    }
}

} // verus!
