use ingest_parser::tree::{SyntaxNode, SyntaxTree};

fn node(kind: &'static str, named: bool, depth: usize) -> SyntaxNode {
    SyntaxNode { kind, named, start_byte: 0, end_byte: 0, start_row: 0, end_row: 0, depth }
}

fn depths(list: &[usize]) -> Option<SyntaxTree> {
    SyntaxTree::new(list.iter().map(|depth| node("n", true, *depth)).collect())
}

#[test]
fn only_depth_first_walks_are_trees() {
    assert!(depths(&[0]).is_some());
    assert!(depths(&[0, 1, 2, 2, 1, 2, 3, 1]).is_some());
    assert!(depths(&[]).is_none());
    assert!(depths(&[1]).is_none());
    assert!(depths(&[0, 0]).is_none());
    assert!(depths(&[0, 2]).is_none());
    assert!(depths(&[0, 1, 3]).is_none());
}

#[test]
fn parents_siblings_and_children() {
    let tree = depths(&[0, 1, 2, 2, 1, 2, 3, 1]).unwrap();
    let parents: Vec<Option<usize>> = (0..tree.len()).map(|i| tree.parent(i)).collect();
    assert_eq!(
        parents,
        vec![None, Some(0), Some(1), Some(1), Some(0), Some(4), Some(5), Some(0)]
    );
    let siblings: Vec<Option<usize>> = (0..tree.len()).map(|i| tree.prev_sibling(i)).collect();
    assert_eq!(siblings, vec![None, None, None, Some(2), Some(1), None, None, Some(4)]);
    let next: Vec<Option<usize>> = (0..tree.len()).map(|i| tree.next_sibling(i)).collect();
    assert_eq!(next, vec![None, Some(4), Some(3), None, Some(7), None, None, None]);
    let children: Vec<Option<usize>> = (0..tree.len()).map(|i| tree.first_child(i)).collect();
    assert_eq!(
        children,
        vec![Some(1), Some(2), None, None, Some(5), Some(6), None, None]
    );
}

#[test]
fn named_siblings_pass_over_tokens() {
    let tree = SyntaxTree::new(vec![
        node("root", true, 0),
        node("comment", true, 1),
        node("word", true, 2),
        node(";", false, 1),
        node(",", false, 1),
        node("name", true, 1),
    ])
    .unwrap();
    assert_eq!(tree.prev_sibling(5), Some(4));
    assert_eq!(tree.prev_named_sibling(5), Some(1));
    assert_eq!(tree.prev_named_sibling(1), None);
    assert!(tree.is_kind(5, "name"));
    assert!(!tree.is_kind(5, "names"));
}

#[test]
fn text_of_a_node() {
    let mut inside = node("n", true, 0);
    inside.start_byte = 1;
    inside.end_byte = 3;
    assert_eq!(inside.text("aéb".as_bytes()), Some("é"));
    assert_eq!(inside.text("abcd".as_bytes()), Some("bc"));
    // Not text: the span cuts a character.
    assert_eq!(inside.text("éé".as_bytes()), None);
    // Beyond the end.
    assert_eq!(inside.text("ab".as_bytes()), None);
    inside.start_byte = 4;
    assert_eq!(inside.text("abcdef".as_bytes()), None);

    let mut root = node("n", true, 0);
    root.end_byte = 2;
    let tree = SyntaxTree::new(vec![root]).unwrap();
    assert_eq!(tree.text(0, "xyz".as_bytes()), Some("xy".to_string()));
    assert_eq!(tree.spelled(0, "xyz".as_bytes()), vec!['x', 'y']);
    assert_eq!(tree.spelled(0, "x".as_bytes()), Vec::<char>::new());
    assert_eq!(tree.node(0).end_byte, 2);
}
