use treebank_merge::error::MergeError;
use treebank_merge::inbound::annis;
use treebank_merge::inbound::ttl::{Document, RdfSubject, RdfTerm, Triple};
use treebank_merge::merge::NodeNameMapper;

fn nif(name: &str) -> String {
    format!("http://persistence.uni-leipzig.org/nlp2rdf/ontologies/nif-core#{}", name)
}

fn conll(name: &str) -> String {
    format!("http://ufal.mff.cuni.cz/conll2009-st/task-description.html#{}", name)
}

fn rdf_type() -> String {
    String::from("http://www.w3.org/1999/02/22-rdf-syntax-ns#type")
}

fn link(s: &str, p: String, o: &str) -> Triple {
    Triple {
        subject: RdfSubject::Named(s.to_string()),
        predicate: p,
        object: RdfTerm::Named(o.to_string()),
    }
}

fn lit(s: &str, p: String, v: &str) -> Triple {
    Triple {
        subject: RdfSubject::Named(s.to_string()),
        predicate: p,
        object: RdfTerm::SimpleLiteral(v.to_string()),
    }
}

fn anno(node: u64, ns: &str, name: &str, value: &str) -> ((u64, String, String), String) {
    ((node, ns.to_string(), name.to_string()), value.to_string())
}

/// Tokens 1..=n chained in order; token i is covered by segmentation node
/// 10 + i, which carries `tok_anno` and its canonical name.
fn graph_doc(
    doc_node_name: &str,
    n: u64,
    extra_annos: Vec<((u64, String, String), String)>,
) -> annis::Document {
    let roots = vec![1];
    let mut edges = Vec::new();
    for i in 1..n {
        edges.push((i, i + 1));
    }
    let mut coverage = Vec::new();
    let mut annos = Vec::new();
    for i in 1..=n {
        coverage.push((10 + i, i));
        annos.push(anno(10 + i, "default_ns", "tok_anno", "tok"));
        annos.push(anno(10 + i, "annis", "node_name", &format!("{}#t{}", doc_node_name, i)));
    }
    annos.extend(extra_annos);
    annis::Document::new(
        doc_node_name.to_string(),
        Some(annis::OrderRelation { roots, edges }),
        coverage,
        annos,
    )
}

/// One sentence S1 with words W1 -> W2, both carrying lemma and POS facts.
fn tree_doc_two_words() -> Document {
    let triples = vec![
        link("http://ex/d/S1", rdf_type(), &nif("Sentence")),
        link("http://ex/d/W1", rdf_type(), &nif("Word")),
        link("http://ex/d/W2", rdf_type(), &nif("Word")),
        link("http://ex/d/W1", nif("nextWord"), "http://ex/d/W2"),
        link("http://ex/d/W1", conll("HEAD"), "http://ex/d/S1"),
        link("http://ex/d/W2", conll("HEAD"), "http://ex/d/S1"),
        lit("http://ex/d/W1", conll("LEMMA"), "der"),
        lit("http://ex/d/W1", conll("POS"), "DD"),
        lit("http://ex/d/W2", conll("LEMMA"), "hunt"),
        lit("http://ex/d/W2", conll("POS"), "NA"),
    ];
    Document::from_triples(&triples).unwrap()
}

fn matching_graph_annos() -> Vec<((u64, String, String), String)> {
    vec![
        anno(11, "annotation", "lemma", "der"),
        anno(11, "annotation", "pos", "DD"),
        anno(12, "annotation", "lemma", "hunt"),
        anno(12, "annotation", "pos", "NA"),
    ]
}

#[test]
fn two_words_align_to_two_tokens() {
    let tree = tree_doc_two_words();
    let graph = graph_doc("x/doc1", 2, matching_graph_annos());
    let mapper = NodeNameMapper::new(&tree, &graph).unwrap();
    assert_eq!(mapper.aligned_count(), 2);
    let w1 = treebank_merge::inbound::ttl::NodeName::new("http://ex/d/W1".to_string());
    let w2 = treebank_merge::inbound::ttl::NodeName::new("http://ex/d/W2".to_string());
    assert_eq!(mapper.annis_node_name(&tree, &w1).unwrap(), "x/doc1#t1");
    assert_eq!(mapper.annis_node_name(&tree, &w2).unwrap(), "x/doc1#t2");
}

#[test]
fn surplus_graph_segments_are_tolerated() {
    // Aligned pair count is min(|tree words|, |graph segments|): the two
    // words pair with the first two of three segments, and the trailing
    // segment is accepted silently.
    let tree = tree_doc_two_words();
    let graph = graph_doc("x/doc1", 3, matching_graph_annos());
    let mapper = NodeNameMapper::new(&tree, &graph).unwrap();
    assert_eq!(mapper.aligned_count(), 2);
    let w2 = treebank_merge::inbound::ttl::NodeName::new("http://ex/d/W2".to_string());
    assert_eq!(mapper.annis_node_name(&tree, &w2).unwrap(), "x/doc1#t2");
}

#[test]
fn surplus_tree_word_is_fatal() {
    let tree = tree_doc_two_words();
    let graph = graph_doc("x/doc1", 1, vec![
        anno(11, "annotation", "lemma", "der"),
        anno(11, "annotation", "pos", "DD"),
    ]);
    let err = NodeNameMapper::new(&tree, &graph).unwrap_err();
    assert!(matches!(err, MergeError::UnalignedWord { tree_node } if tree_node == "http://ex/d/W2"));
}

#[test]
fn differing_lemma_is_a_sanity_mismatch() {
    let tree = tree_doc_two_words();
    let mut annos = matching_graph_annos();
    annos[2] = anno(12, "annotation", "lemma", "wolf");
    let graph = graph_doc("x/doc1", 2, annos);
    let err = NodeNameMapper::new(&tree, &graph).unwrap_err();
    match err {
        MergeError::SanityMismatch { anno_name, tree_node, graph_node, tree_value, graph_value } => {
            assert_eq!(anno_name, "lemma");
            assert_eq!(tree_node, "http://ex/d/W2");
            assert_eq!(graph_node, "x/doc1#t2");
            assert_eq!(tree_value, "hunt");
            assert_eq!(graph_value, "wolf");
        },
        other => panic!("unexpected error: {:?}", other),
    }
}

#[test]
fn placeholder_value_counts_as_absent() {
    // The graph side stores the "absent" placeholder; the tree side has no
    // fact at all: both absent compares equal.
    let tree = tree_doc_two_words();
    let mut annos = matching_graph_annos();
    annos.push(anno(11, "annotation", "inflection", "--"));
    let graph = graph_doc("x/doc1", 2, annos);
    assert!(NodeNameMapper::new(&tree, &graph).is_ok());
}

#[test]
fn quote_entity_is_unescaped_before_comparison() {
    let triples = vec![
        link("http://ex/d/S1", rdf_type(), &nif("Sentence")),
        link("http://ex/d/W1", rdf_type(), &nif("Word")),
        link("http://ex/d/W1", conll("HEAD"), "http://ex/d/S1"),
        lit("http://ex/d/W1", conll("LEMMA"), "&quot;so&quot;"),
    ];
    let tree = Document::from_triples(&triples).unwrap();
    let graph = graph_doc("x/doc1", 1, vec![anno(11, "annotation", "lemma", "\"so\"")]);
    assert!(NodeNameMapper::new(&tree, &graph).is_ok());
}

#[test]
fn segment_without_name_is_fatal() {
    let tree = tree_doc_two_words();
    let graph = annis::Document::new(
        "x/doc1".to_string(),
        Some(annis::OrderRelation { roots: vec![1], edges: vec![(1, 2)] }),
        vec![(11, 1), (12, 2)],
        vec![
            anno(11, "default_ns", "tok_anno", "tok"),
            anno(11, "annis", "node_name", "x/doc1#t1"),
            anno(12, "default_ns", "tok_anno", "tok"),
            anno(11, "annotation", "lemma", "der"),
            anno(11, "annotation", "pos", "DD"),
        ],
    );
    let err = NodeNameMapper::new(&tree, &graph).unwrap_err();
    assert!(matches!(err, MergeError::MissingNodeName { node: 12 }));
}
