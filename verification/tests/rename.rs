use treebank_merge::error::MergeError;
use treebank_merge::inbound::annis::Storage;
use treebank_merge::outbound::annis::{Corpus, UpdateEvent};
use treebank_merge::rename::RenamePattern;

fn corpus(name: &str) -> Corpus {
    let storage = Storage::new(vec![name.to_string()]);
    let inbound = storage.corpora().into_iter().next().unwrap();
    Corpus::from_inbound_corpus(&inbound)
}

fn label_values(events: &[UpdateEvent]) -> Vec<(String, String)> {
    events
        .iter()
        .map(|e| match e {
            UpdateEvent::AddNodeLabel { node_name, anno_ns, anno_name, anno_value } => {
                assert_eq!(anno_ns, "annis");
                assert_eq!(anno_name, "node_name");
                (node_name.clone(), anno_value.clone())
            },
            other => panic!("unexpected event kind: {:?}", std::mem::discriminant(other)),
        })
        .collect()
}

#[test]
fn pattern_application_replaces_placeholder() {
    let pattern = RenamePattern::new("%c_tb").unwrap();
    assert_eq!(pattern.apply("x"), "x_tb");
}

#[test]
fn pattern_without_placeholder_is_rejected() {
    let err = RenamePattern::new("_tb").unwrap_err();
    assert!(matches!(err, MergeError::PatternWithoutPlaceholder { pattern } if pattern == "_tb"));
}

#[test]
fn corpus_root_and_nodes_are_renamed() {
    let mut corpus = corpus("x");
    let pattern = RenamePattern::new("%c_tb").unwrap();
    let matches = vec![
        vec!["x".to_string()],
        vec!["x/doc1#n1".to_string()],
    ];
    let update = corpus.update_name(&pattern, &matches).unwrap();
    assert_eq!(label_values(update.events()), vec![
        ("x".to_string(), "x_tb".to_string()),
        ("x/doc1#n1".to_string(), "x_tb/doc1#n1".to_string()),
    ]);
    assert_eq!(corpus.name(), "x_tb");
}

#[test]
fn encoded_corpus_prefix_is_reencoded() {
    // A corpus name with a space is URL-encoded inside node names: the
    // rename must compare and rebuild the encoded prefix.
    let mut corpus = corpus("a b");
    let pattern = RenamePattern::new("%c_tb").unwrap();
    let matches = vec![
        vec!["a b".to_string()],
        vec!["a%20b/doc1".to_string()],
    ];
    let update = corpus.update_name(&pattern, &matches).unwrap();
    assert_eq!(label_values(update.events()), vec![
        ("a b".to_string(), "a b_tb".to_string()),
        ("a%20b/doc1".to_string(), "a%20b_tb/doc1".to_string()),
    ]);
    assert_eq!(corpus.name(), "a b_tb");
}

#[test]
fn unexpected_prefix_is_fatal() {
    let mut corpus = corpus("x");
    let pattern = RenamePattern::new("%c_tb").unwrap();
    let matches = vec![vec!["y/doc1".to_string()]];
    let err = corpus.update_name(&pattern, &matches).unwrap_err();
    match err {
        MergeError::UnexpectedCorpusName { found, expected } => {
            assert_eq!(found, "y");
            assert_eq!(expected, "x");
        },
        other => panic!("unexpected error: {:?}", other),
    }
    assert_eq!(corpus.name(), "x");
}

#[test]
fn node_name_without_separator_is_fatal() {
    let mut corpus = corpus("x");
    let pattern = RenamePattern::new("%c_tb").unwrap();
    let matches = vec![vec!["stray".to_string()]];
    let err = corpus.update_name(&pattern, &matches).unwrap_err();
    assert!(matches!(err, MergeError::UnexpectedNodeName { node_name } if node_name == "stray"));
}

#[test]
fn rename_match_must_hold_one_name() {
    let mut corpus = corpus("x");
    let pattern = RenamePattern::new("%c_tb").unwrap();
    let matches = vec![vec!["x".to_string(), "x/doc1".to_string()]];
    let err = corpus.update_name(&pattern, &matches).unwrap_err();
    assert!(matches!(err, MergeError::BadMatchArity));
}
