use treebank_merge::error::MergeError;
use treebank_merge::inbound::annis;
use treebank_merge::inbound::ttl::{
    AnnoKey, Document, NodeName, RdfSubject, RdfTerm, Storage, Triple,
};

fn nif(name: &str) -> String {
    format!("http://persistence.uni-leipzig.org/nlp2rdf/ontologies/nif-core#{}", name)
}

fn conll(name: &str) -> String {
    format!("http://ufal.mff.cuni.cz/conll2009-st/task-description.html#{}", name)
}

fn rdf_type() -> String {
    String::from("http://www.w3.org/1999/02/22-rdf-syntax-ns#type")
}

fn link(s: &str, p: String, o: &str) -> Triple {
    Triple {
        subject: RdfSubject::Named(s.to_string()),
        predicate: p,
        object: RdfTerm::Named(o.to_string()),
    }
}

fn lit(s: &str, p: String, v: &str) -> Triple {
    Triple {
        subject: RdfSubject::Named(s.to_string()),
        predicate: p,
        object: RdfTerm::SimpleLiteral(v.to_string()),
    }
}

#[test]
fn facts_are_recorded() {
    let triples = vec![
        link("d/W1", rdf_type(), &nif("Word")),
        lit("d/W1", conll("LEMMA"), "der"),
        link("d/W1", String::from("http://example.org/unrelated"), "d/W2"),
    ];
    let doc = Document::from_triples(&triples).unwrap();
    let w1 = NodeName::new("d/W1".to_string());
    assert!(doc.is_word(&w1));
    assert_eq!(doc.anno(&w1, AnnoKey::Lemma).map(|s| s.as_str()), Some("der"));
    assert_eq!(doc.anno(&w1, AnnoKey::Pos), None);
    assert_eq!(doc.parent_edges().len(), 0);
}

#[test]
fn latest_fact_wins() {
    let triples = vec![
        lit("d/W1", conll("LEMMA"), "alt"),
        lit("d/W1", conll("LEMMA"), "neu"),
    ];
    let doc = Document::from_triples(&triples).unwrap();
    let w1 = NodeName::new("d/W1".to_string());
    assert_eq!(doc.anno(&w1, AnnoKey::Lemma).map(|s| s.as_str()), Some("neu"));
}

#[test]
fn dominance_facts_keep_order_and_duplicates() {
    let triples = vec![
        link("d/W1", String::from("http://purl.org/powla/powla.owl#hasParent"), "d/P1"),
        link("d/W1", String::from("http://purl.org/powla/powla.owl#hasParent"), "d/P1"),
    ];
    let doc = Document::from_triples(&triples).unwrap();
    assert_eq!(doc.parent_edges().len(), 2);
}

#[test]
fn blank_subject_in_link_is_fatal() {
    let triples = vec![Triple {
        subject: RdfSubject::Other,
        predicate: conll("HEAD"),
        object: RdfTerm::Named("d/S1".to_string()),
    }];
    let err = Document::from_triples(&triples).unwrap_err();
    assert!(matches!(err, MergeError::SubjectNotNamed { .. }));
}

#[test]
fn literal_object_in_link_is_fatal() {
    let triples = vec![lit("d/W1", nif("nextWord"), "oops")];
    let err = Document::from_triples(&triples).unwrap_err();
    assert!(matches!(err, MergeError::ObjectNotNamed { .. }));
}

#[test]
fn named_object_in_annotation_is_fatal() {
    let triples = vec![link("d/W1", conll("LEMMA"), "d/W2")];
    let err = Document::from_triples(&triples).unwrap_err();
    assert!(matches!(err, MergeError::ObjectNotLiteral { .. }));
}

#[test]
fn unrelated_type_fact_is_ignored() {
    let triples = vec![link("d/N1", rdf_type(), "http://example.org/Other")];
    let doc = Document::from_triples(&triples).unwrap();
    let n1 = NodeName::new("d/N1".to_string());
    assert!(!doc.is_word(&n1));
}

#[test]
fn document_file_is_selected_by_stem_prefix() {
    let storage = Storage::from_dir("corpora/ttl".to_string());
    let files = vec![
        "other_01.ttl".to_string(),
        "doc1_sample.ttl".to_string(),
        "doc1_sample.txt".to_string(),
    ];
    assert_eq!(storage.select_document_file("doc1", &files).unwrap(), Some(1));
    assert_eq!(storage.dir(), "corpora/ttl");
}

#[test]
fn missing_document_file_is_a_skip() {
    let storage = Storage::from_dir(".".to_string());
    let files = vec!["other_01.ttl".to_string()];
    assert_eq!(storage.select_document_file("doc1", &files).unwrap(), None);
}

#[test]
fn ambiguous_document_file_is_fatal() {
    let storage = Storage::from_dir(".".to_string());
    let files = vec!["doc1_a.ttl".to_string(), "doc1_b.ttl".to_string()];
    let err = storage.select_document_file("doc1", &files).unwrap_err();
    assert!(matches!(err, MergeError::AmbiguousDocumentFile { doc_name } if doc_name == "doc1"));
}

#[test]
fn doc_name_follows_first_separator() {
    let doc = annis::Document::new("x/doc1".to_string(), None, vec![], vec![]);
    assert_eq!(doc.doc_name().unwrap(), "doc1");
    assert_eq!(doc.node_name().into_owned_name(), "x/doc1");
}

#[test]
fn corpus_node_name_without_separator_is_fatal() {
    let doc = annis::Document::new("plain".to_string(), None, vec![], vec![]);
    let err = doc.doc_name().unwrap_err();
    assert!(matches!(err, MergeError::InvalidDocumentNodeName { node_name } if node_name == "plain"));
}

#[test]
fn storage_lists_corpora_in_import_order() {
    let storage = annis::Storage::new(vec!["a".to_string(), "b".to_string()]);
    let names: Vec<String> = storage.corpora().iter().map(|c| c.name().to_string()).collect();
    assert_eq!(names, vec!["a", "b"]);
}
