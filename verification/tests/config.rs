use treebank_merge::error::MergeError;
use treebank_merge::merge::{containment_edges, single_node_name};
use treebank_merge::outbound::annis::{
    replace_corpus_config, AnnotationComponentType, Update, UpdateEvent,
};

#[test]
fn config_section_is_replaced() {
    let graphml = "<graphml><data><![CDATA[old = 1]]></data></graphml>";
    let out = replace_corpus_config(graphml, "new = 2").unwrap();
    assert_eq!(out, "<graphml><data><![CDATA[new = 2]]></data></graphml>");
}

#[test]
fn missing_config_section_is_fatal() {
    let err = replace_corpus_config("<graphml></graphml>", "x").unwrap_err();
    assert!(matches!(err, MergeError::NoConfigSection));
}

#[test]
fn unterminated_config_section_is_fatal() {
    let err = replace_corpus_config("<graphml><![CDATA[open", "x").unwrap_err();
    assert!(matches!(err, MergeError::NoConfigSection));
}

#[test]
fn second_config_section_is_fatal() {
    let graphml = "<a><![CDATA[one]]><![CDATA[two]]></a>";
    let err = replace_corpus_config(graphml, "x").unwrap_err();
    assert!(matches!(err, MergeError::MultipleConfigSections));
}

#[test]
fn containment_matches_become_part_of_edges() {
    let matches = vec![
        vec!["x/d#p1".to_string(), "x/d#w1".to_string(), "x/d".to_string()],
        vec!["x/d#p2".to_string(), "x/d#w2".to_string(), "x/d".to_string()],
    ];
    let mut update = Update::new();
    containment_edges(&matches, &mut update).unwrap();
    let events = update.events();
    assert_eq!(events.len(), 2);
    match &events[0] {
        UpdateEvent::AddEdge { source_node, target_node, layer, component_type, component_name } => {
            assert_eq!(source_node, "x/d#p1");
            assert_eq!(target_node, "x/d");
            assert_eq!(layer, "annis");
            assert_eq!(*component_type, AnnotationComponentType::PartOf);
            assert_eq!(component_name, "");
        },
        _ => panic!("expected an edge"),
    }
}

#[test]
fn containment_match_must_hold_three_nodes() {
    let matches = vec![vec!["x/d#p1".to_string(), "x/d".to_string()]];
    let mut update = Update::new();
    let err = containment_edges(&matches, &mut update).unwrap_err();
    assert!(matches!(err, MergeError::BadMatchArity));
}

#[test]
fn document_match_must_hold_one_node() {
    assert_eq!(single_node_name(&vec!["x/d".to_string()]).unwrap(), "x/d");
    assert!(matches!(
        single_node_name(&vec![]).unwrap_err(),
        MergeError::BadMatchArity
    ));
}
