use treebank_merge::error::MergeError;
use treebank_merge::inbound::annis;
use treebank_merge::inbound::ttl::{Document, RdfSubject, RdfTerm, Triple};

fn nif(name: &str) -> String {
    format!("http://persistence.uni-leipzig.org/nlp2rdf/ontologies/nif-core#{}", name)
}

fn conll(name: &str) -> String {
    format!("http://ufal.mff.cuni.cz/conll2009-st/task-description.html#{}", name)
}

fn rdf_type() -> String {
    String::from("http://www.w3.org/1999/02/22-rdf-syntax-ns#type")
}

fn link(s: &str, p: String, o: &str) -> Triple {
    Triple {
        subject: RdfSubject::Named(s.to_string()),
        predicate: p,
        object: RdfTerm::Named(o.to_string()),
    }
}

fn anno(node: u64, ns: &str, name: &str, value: &str) -> ((u64, String, String), String) {
    ((node, ns.to_string(), name.to_string()), value.to_string())
}

fn names(v: Vec<treebank_merge::inbound::ttl::NodeName>) -> Vec<String> {
    v.into_iter().map(|n| n.as_str().to_string()).collect()
}

#[test]
fn words_concatenate_in_sentence_and_word_order() {
    let triples = vec![
        link("d/S1", rdf_type(), &nif("Sentence")),
        link("d/S2", rdf_type(), &nif("Sentence")),
        link("d/S1", nif("nextSentence"), "d/S2"),
        link("d/W1", rdf_type(), &nif("Word")),
        link("d/W2", rdf_type(), &nif("Word")),
        link("d/W3", rdf_type(), &nif("Word")),
        link("d/W1", nif("nextWord"), "d/W2"),
        link("d/W1", conll("HEAD"), "d/S1"),
        link("d/W2", conll("HEAD"), "d/S1"),
        link("d/W3", conll("HEAD"), "d/S2"),
    ];
    let doc = Document::from_triples(&triples).unwrap();
    let words = doc.word_nodes_in_order().unwrap();
    assert_eq!(names(words), vec!["d/W1", "d/W2", "d/W3"]);
}

#[test]
fn sentence_without_words_contributes_nothing() {
    let triples = vec![
        link("d/S1", rdf_type(), &nif("Sentence")),
        link("d/S2", rdf_type(), &nif("Sentence")),
        link("d/S1", nif("nextSentence"), "d/S2"),
        link("d/W1", rdf_type(), &nif("Word")),
        link("d/W1", conll("HEAD"), "d/S2"),
    ];
    let doc = Document::from_triples(&triples).unwrap();
    assert_eq!(names(doc.word_nodes_in_order().unwrap()), vec!["d/W1"]);
}

#[test]
fn no_sentence_chain_head_is_fatal() {
    let triples = vec![link("d/W1", rdf_type(), &nif("Word"))];
    let doc = Document::from_triples(&triples).unwrap();
    let err = doc.word_nodes_in_order().unwrap_err();
    assert!(matches!(err, MergeError::NoSentenceChainHead));
}

#[test]
fn two_sentence_chain_heads_are_fatal() {
    let triples = vec![
        link("d/S1", rdf_type(), &nif("Sentence")),
        link("d/S2", rdf_type(), &nif("Sentence")),
    ];
    let doc = Document::from_triples(&triples).unwrap();
    let err = doc.word_nodes_in_order().unwrap_err();
    assert!(matches!(err, MergeError::AmbiguousSentenceChainHead));
}

#[test]
fn cyclic_sentence_chain_is_fatal() {
    let triples = vec![
        link("d/S1", rdf_type(), &nif("Sentence")),
        link("d/S1", nif("nextSentence"), "d/A"),
        link("d/A", nif("nextSentence"), "d/B"),
        link("d/B", nif("nextSentence"), "d/A"),
    ];
    let doc = Document::from_triples(&triples).unwrap();
    let err = doc.word_nodes_in_order().unwrap_err();
    assert!(matches!(err, MergeError::CyclicSentenceChain));
}

#[test]
fn word_cycle_without_head_is_fatal() {
    let triples = vec![
        link("d/S1", rdf_type(), &nif("Sentence")),
        link("d/W1", rdf_type(), &nif("Word")),
        link("d/W2", rdf_type(), &nif("Word")),
        link("d/W1", conll("HEAD"), "d/S1"),
        link("d/W2", conll("HEAD"), "d/S1"),
        link("d/W1", nif("nextWord"), "d/W2"),
        link("d/W2", nif("nextWord"), "d/W1"),
    ];
    let doc = Document::from_triples(&triples).unwrap();
    let err = doc.word_nodes_in_order().unwrap_err();
    assert!(matches!(err, MergeError::NoWordChainHead { sentence } if sentence == "d/S1"));
}

#[test]
fn two_word_chain_heads_are_fatal() {
    let triples = vec![
        link("d/S1", rdf_type(), &nif("Sentence")),
        link("d/W1", rdf_type(), &nif("Word")),
        link("d/W2", rdf_type(), &nif("Word")),
        link("d/W1", conll("HEAD"), "d/S1"),
        link("d/W2", conll("HEAD"), "d/S1"),
    ];
    let doc = Document::from_triples(&triples).unwrap();
    let err = doc.word_nodes_in_order().unwrap_err();
    assert!(matches!(err, MergeError::AmbiguousWordChainHead { sentence } if sentence == "d/S1"));
}

#[test]
fn cyclic_word_chain_is_fatal() {
    let triples = vec![
        link("d/S1", rdf_type(), &nif("Sentence")),
        link("d/W0", rdf_type(), &nif("Word")),
        link("d/W0", conll("HEAD"), "d/S1"),
        link("d/W0", nif("nextWord"), "d/A"),
        link("d/A", nif("nextWord"), "d/B"),
        link("d/B", nif("nextWord"), "d/A"),
    ];
    let doc = Document::from_triples(&triples).unwrap();
    let err = doc.word_nodes_in_order().unwrap_err();
    assert!(matches!(err, MergeError::CyclicWordChain { sentence } if sentence == "d/S1"));
}

#[test]
fn spanning_segment_is_yielded_once_at_first_token() {
    // Node 20 spans both tokens; node 21 covers only the second. The span
    // appears once, at its first covered token, before the narrower node.
    let doc = annis::Document::new(
        "x/doc1".to_string(),
        Some(annis::OrderRelation { roots: vec![1], edges: vec![(1, 2)] }),
        vec![(20, 1), (20, 2), (21, 2)],
        vec![
            anno(20, "default_ns", "tok_anno", "a"),
            anno(21, "default_ns", "tok_anno", "b"),
        ],
    );
    assert_eq!(doc.segmentation_nodes_in_order("tok_anno").unwrap(), vec![20, 21]);
}

#[test]
fn covering_node_without_segmentation_is_skipped() {
    let doc = annis::Document::new(
        "x/doc1".to_string(),
        Some(annis::OrderRelation { roots: vec![1], edges: vec![] }),
        vec![(20, 1), (21, 1)],
        vec![anno(21, "default_ns", "tok_anno", "a")],
    );
    assert_eq!(doc.segmentation_nodes_in_order("tok_anno").unwrap(), vec![21]);
}

#[test]
fn missing_ordering_component_is_fatal() {
    let doc = annis::Document::new("x/doc1".to_string(), None, vec![], vec![]);
    let err = doc.segmentation_nodes_in_order("tok_anno").unwrap_err();
    assert!(matches!(err, MergeError::MissingOrderingComponent));
}

#[test]
fn missing_ordering_root_is_fatal() {
    let doc = annis::Document::new(
        "x/doc1".to_string(),
        Some(annis::OrderRelation { roots: vec![], edges: vec![] }),
        vec![],
        vec![],
    );
    let err = doc.segmentation_nodes_in_order("tok_anno").unwrap_err();
    assert!(matches!(err, MergeError::MissingOrderingRoot));
}

#[test]
fn two_ordering_roots_are_fatal() {
    let doc = annis::Document::new(
        "x/doc1".to_string(),
        Some(annis::OrderRelation { roots: vec![1, 5], edges: vec![] }),
        vec![],
        vec![],
    );
    let err = doc.segmentation_nodes_in_order("tok_anno").unwrap_err();
    assert!(matches!(err, MergeError::MultipleOrderingRoots));
}

#[test]
fn two_ordering_successors_are_fatal() {
    let doc = annis::Document::new(
        "x/doc1".to_string(),
        Some(annis::OrderRelation { roots: vec![1], edges: vec![(1, 2), (1, 3)] }),
        vec![],
        vec![],
    );
    let err = doc.segmentation_nodes_in_order("tok_anno").unwrap_err();
    assert!(matches!(err, MergeError::MultipleOrderingSuccessors { token: 1 }));
}

#[test]
fn cyclic_ordering_is_fatal() {
    let doc = annis::Document::new(
        "x/doc1".to_string(),
        Some(annis::OrderRelation { roots: vec![1], edges: vec![(1, 2), (2, 1)] }),
        vec![],
        vec![],
    );
    let err = doc.segmentation_nodes_in_order("tok_anno").unwrap_err();
    assert!(matches!(err, MergeError::CyclicOrdering));
}
