use treebank_merge::rem::sanitize_anno;

#[test]
fn placeholder_becomes_absent() {
    assert_eq!(sanitize_anno(Some("--")), None);
}

#[test]
fn trims_and_replaces_hash() {
    assert_eq!(sanitize_anno(Some(" foo# bar ")), Some(String::from("foo- bar")));
}

#[test]
fn absent_stays_absent() {
    assert_eq!(sanitize_anno(None), None);
}

#[test]
fn plain_value_unchanged() {
    assert_eq!(sanitize_anno(Some("wort")), Some(String::from("wort")));
}

#[test]
fn two_hashes_both_replaced() {
    assert_eq!(sanitize_anno(Some("a#b#c")), Some(String::from("a-b-c")));
}

#[test]
fn padded_placeholder_is_kept() {
    // Only the exact placeholder means "absent"; it is tested before trimming.
    assert_eq!(sanitize_anno(Some(" -- ")), Some(String::from("--")));
}
