use treebank_merge::error::MergeError;
use treebank_merge::inbound::annis;
use treebank_merge::inbound::ttl::{Document, NodeName, RdfSubject, RdfTerm, Triple};
use treebank_merge::merge::{merge_document, MergeOptions, NodeNameMapper};
use treebank_merge::outbound::annis::{AnnotationComponentType, Update, UpdateEvent};

fn nif(name: &str) -> String {
    format!("http://persistence.uni-leipzig.org/nlp2rdf/ontologies/nif-core#{}", name)
}

fn conll(name: &str) -> String {
    format!("http://ufal.mff.cuni.cz/conll2009-st/task-description.html#{}", name)
}

fn rdf_type() -> String {
    String::from("http://www.w3.org/1999/02/22-rdf-syntax-ns#type")
}

fn has_parent() -> String {
    String::from("http://purl.org/powla/powla.owl#hasParent")
}

fn link(s: &str, p: String, o: &str) -> Triple {
    Triple {
        subject: RdfSubject::Named(s.to_string()),
        predicate: p,
        object: RdfTerm::Named(o.to_string()),
    }
}

fn lit(s: &str, p: String, v: &str) -> Triple {
    Triple {
        subject: RdfSubject::Named(s.to_string()),
        predicate: p,
        object: RdfTerm::SimpleLiteral(v.to_string()),
    }
}

fn anno(node: u64, ns: &str, name: &str, value: &str) -> ((u64, String, String), String) {
    ((node, ns.to_string(), name.to_string()), value.to_string())
}

fn graph_doc_one_token() -> annis::Document {
    annis::Document::new(
        "x/doc1".to_string(),
        Some(annis::OrderRelation { roots: vec![1], edges: vec![] }),
        vec![(11, 1)],
        vec![
            anno(11, "default_ns", "tok_anno", "tok"),
            anno(11, "annis", "node_name", "x/doc1#t1"),
        ],
    )
}

fn options() -> MergeOptions {
    MergeOptions {
        layer: "treebank".to_string(),
        tree_anno: "tree".to_string(),
        iri_anno: None,
    }
}

/// One word W1 under phrase P1 (category NP) under root R1 (no category).
fn tree_doc_phrase() -> Document {
    let triples = vec![
        link("http://ex/d/S1", rdf_type(), &nif("Sentence")),
        link("http://ex/d/W1", rdf_type(), &nif("Word")),
        link("http://ex/d/W1", conll("HEAD"), "http://ex/d/S1"),
        link("http://ex/d/W1", has_parent(), "http://ex/d/P1"),
        link("http://ex/d/P1", has_parent(), "http://ex/d/R1"),
        lit("http://ex/d/P1", conll("CAT"), "NP"),
    ];
    Document::from_triples(&triples).unwrap()
}

#[test]
fn phrase_with_category_is_realized_and_bare_root_edge_dropped() {
    let tree = tree_doc_phrase();
    let graph = graph_doc_one_token();
    let mapper = NodeNameMapper::new(&tree, &graph).unwrap();
    let mut update = Update::new();
    merge_document(&tree, &mapper, &options(), &mut update).unwrap();
    let events = update.events();
    assert_eq!(events.len(), 4);
    match &events[0] {
        UpdateEvent::AddNode { node_name, node_type } => {
            assert_eq!(node_name, "x/doc1#P1");
            assert_eq!(node_type, "node");
        },
        other => panic!("unexpected event: {:?}", event_kind(other)),
    }
    match &events[1] {
        UpdateEvent::AddNodeLabel { node_name, anno_ns, anno_name, anno_value } => {
            assert_eq!(node_name, "x/doc1#P1");
            assert_eq!(anno_ns, "annis");
            assert_eq!(anno_name, "layer");
            assert_eq!(anno_value, "treebank");
        },
        other => panic!("unexpected event: {:?}", event_kind(other)),
    }
    match &events[2] {
        UpdateEvent::AddNodeLabel { node_name, anno_ns, anno_name, anno_value } => {
            assert_eq!(node_name, "x/doc1#P1");
            assert_eq!(anno_ns, "treebank");
            assert_eq!(anno_name, "tree");
            assert_eq!(anno_value, "NP");
        },
        other => panic!("unexpected event: {:?}", event_kind(other)),
    }
    match &events[3] {
        UpdateEvent::AddEdge { source_node, target_node, layer, component_type, component_name } => {
            assert_eq!(source_node, "x/doc1#P1");
            assert_eq!(target_node, "x/doc1#t1");
            assert_eq!(layer, "treebank");
            assert_eq!(*component_type, AnnotationComponentType::Dominance);
            assert_eq!(component_name, "");
        },
        other => panic!("unexpected event: {:?}", event_kind(other)),
    }
}

fn event_kind(e: &UpdateEvent) -> &'static str {
    match e {
        UpdateEvent::AddNode { .. } => "AddNode",
        UpdateEvent::AddNodeLabel { .. } => "AddNodeLabel",
        UpdateEvent::AddEdge { .. } => "AddEdge",
    }
}

#[test]
fn iri_annotation_is_emitted_for_every_touched_node() {
    let tree = tree_doc_phrase();
    let graph = graph_doc_one_token();
    let mapper = NodeNameMapper::new(&tree, &graph).unwrap();
    let mut update = Update::new();
    let opts = MergeOptions {
        layer: "treebank".to_string(),
        tree_anno: "tree".to_string(),
        iri_anno: Some("iri".to_string()),
    };
    merge_document(&tree, &mapper, &opts, &mut update).unwrap();
    let iri_values: Vec<&str> = update
        .events()
        .iter()
        .filter_map(|e| match e {
            UpdateEvent::AddNodeLabel { anno_name, anno_value, .. } if anno_name == "iri" => {
                Some(anno_value.as_str())
            },
            _ => None,
        })
        .collect();
    assert_eq!(iri_values, vec!["http://ex/d/W1", "http://ex/d/P1"]);
}

#[test]
fn duplicate_edge_realizes_nodes_once() {
    // The merged node set prevents duplicate node emission: the repeated
    // edge contributes a second dominance edge but no second node.
    let triples = vec![
        link("http://ex/d/S1", rdf_type(), &nif("Sentence")),
        link("http://ex/d/W1", rdf_type(), &nif("Word")),
        link("http://ex/d/W1", conll("HEAD"), "http://ex/d/S1"),
        link("http://ex/d/W1", has_parent(), "http://ex/d/P1"),
        link("http://ex/d/W1", has_parent(), "http://ex/d/P1"),
        lit("http://ex/d/P1", conll("CAT"), "NP"),
    ];
    let tree = Document::from_triples(&triples).unwrap();
    let graph = graph_doc_one_token();
    let mapper = NodeNameMapper::new(&tree, &graph).unwrap();
    let mut update = Update::new();
    merge_document(&tree, &mapper, &options(), &mut update).unwrap();
    let node_count = update
        .events()
        .iter()
        .filter(|e| matches!(e, UpdateEvent::AddNode { .. }))
        .count();
    let edge_count = update
        .events()
        .iter()
        .filter(|e| matches!(e, UpdateEvent::AddEdge { .. }))
        .count();
    assert_eq!(node_count, 1);
    assert_eq!(edge_count, 2);
}

#[test]
fn cyclic_edges_terminate_and_are_dropped() {
    // Two edges that dominate each other are never made ready by any word:
    // the worklist reaches its fixed point and drops them.
    let triples = vec![
        link("http://ex/d/S1", rdf_type(), &nif("Sentence")),
        link("http://ex/d/W1", rdf_type(), &nif("Word")),
        link("http://ex/d/W1", conll("HEAD"), "http://ex/d/S1"),
        link("http://ex/d/A", has_parent(), "http://ex/d/B"),
        link("http://ex/d/B", has_parent(), "http://ex/d/A"),
        lit("http://ex/d/A", conll("CAT"), "XP"),
        lit("http://ex/d/B", conll("CAT"), "XP"),
    ];
    let tree = Document::from_triples(&triples).unwrap();
    let graph = graph_doc_one_token();
    let mapper = NodeNameMapper::new(&tree, &graph).unwrap();
    let mut update = Update::new();
    merge_document(&tree, &mapper, &options(), &mut update).unwrap();
    assert_eq!(update.events().len(), 0);
}

#[test]
fn deep_chain_converges_across_passes() {
    // Readiness propagates upward one level per pass: listing the edges
    // top-down forces one realization per pass until the chain is done.
    let triples = vec![
        link("http://ex/d/P2", has_parent(), "http://ex/d/P3"),
        link("http://ex/d/P1", has_parent(), "http://ex/d/P2"),
        link("http://ex/d/W1", has_parent(), "http://ex/d/P1"),
        link("http://ex/d/S1", rdf_type(), &nif("Sentence")),
        link("http://ex/d/W1", rdf_type(), &nif("Word")),
        link("http://ex/d/W1", conll("HEAD"), "http://ex/d/S1"),
        lit("http://ex/d/P1", conll("CAT"), "NP"),
        lit("http://ex/d/P2", conll("CAT"), "VP"),
        lit("http://ex/d/P3", conll("CAT"), "S"),
    ];
    let tree = Document::from_triples(&triples).unwrap();
    let graph = graph_doc_one_token();
    let mapper = NodeNameMapper::new(&tree, &graph).unwrap();
    let mut update = Update::new();
    merge_document(&tree, &mapper, &options(), &mut update).unwrap();
    let edges: Vec<(String, String)> = update
        .events()
        .iter()
        .filter_map(|e| match e {
            UpdateEvent::AddEdge { source_node, target_node, .. } => {
                Some((source_node.clone(), target_node.clone()))
            },
            _ => None,
        })
        .collect();
    assert_eq!(edges, vec![
        ("x/doc1#P1".to_string(), "x/doc1#t1".to_string()),
        ("x/doc1#P2".to_string(), "x/doc1#P1".to_string()),
        ("x/doc1#P3".to_string(), "x/doc1#P2".to_string()),
    ]);
}

#[test]
fn unaligned_word_in_edge_is_fatal() {
    // W2 is typed as a word but belongs to no sentence, so it is never
    // aligned; an edge rooted in it cannot be named.
    let triples = vec![
        link("http://ex/d/S1", rdf_type(), &nif("Sentence")),
        link("http://ex/d/W1", rdf_type(), &nif("Word")),
        link("http://ex/d/W1", conll("HEAD"), "http://ex/d/S1"),
        link("http://ex/d/W2", rdf_type(), &nif("Word")),
        link("http://ex/d/W2", has_parent(), "http://ex/d/P1"),
        lit("http://ex/d/P1", conll("CAT"), "NP"),
    ];
    let tree = Document::from_triples(&triples).unwrap();
    let graph = graph_doc_one_token();
    let mapper = NodeNameMapper::new(&tree, &graph).unwrap();
    let mut update = Update::new();
    let err = merge_document(&tree, &mapper, &options(), &mut update).unwrap_err();
    assert!(matches!(err, MergeError::MissingMapping { tree_node } if tree_node == "http://ex/d/W2"));
}

#[test]
fn phrase_name_without_separator_is_fatal() {
    let triples = vec![
        link("http://ex/d/S1", rdf_type(), &nif("Sentence")),
        link("http://ex/d/W1", rdf_type(), &nif("Word")),
        link("http://ex/d/W1", conll("HEAD"), "http://ex/d/S1"),
        link("http://ex/d/W1", has_parent(), "phrase-without-path"),
        lit("phrase-without-path", conll("CAT"), "NP"),
    ];
    let tree = Document::from_triples(&triples).unwrap();
    let graph = graph_doc_one_token();
    let mapper = NodeNameMapper::new(&tree, &graph).unwrap();
    let mut update = Update::new();
    let err = merge_document(&tree, &mapper, &options(), &mut update).unwrap_err();
    assert!(
        matches!(err, MergeError::NameWithoutSlash { tree_node } if tree_node == "phrase-without-path")
    );
}

#[test]
fn mapper_rejects_word_lookup_for_phrase() {
    let tree = tree_doc_phrase();
    let graph = graph_doc_one_token();
    let mapper = NodeNameMapper::new(&tree, &graph).unwrap();
    let p1 = NodeName::new("http://ex/d/P1".to_string());
    assert_eq!(mapper.annis_node_name(&tree, &p1).unwrap(), "x/doc1#P1");
}
