use quickswitch::{filter_node, flatten_nodes, get_windows_names, Node};

fn leaf(window: Option<i32>, name: Option<&str>, class: Option<&str>) -> Node {
    Node {
        window,
        name: name.map(|n| n.to_string()),
        class_name: class.map(|c| c.to_string()),
        nodes: Vec::new(),
    }
}

fn container(name: Option<&str>, nodes: Vec<Node>) -> Node {
    Node { window: None, name: name.map(|n| n.to_string()), class_name: None, nodes }
}

fn names(nodes: &[&Node]) -> Vec<Option<String>> {
    nodes.iter().map(|n| n.name.clone()).collect()
}

fn some(names: &[&str]) -> Vec<Option<String>> {
    names.iter().map(|n| Some(n.to_string())).collect()
}

#[test]
fn container_yields_its_real_windows_in_order() {
    let tree = vec![container(
        Some("workspace"),
        vec![
            leaf(Some(5), Some("Inbox"), Some("Mail")),
            leaf(None, Some("split"), None),
            leaf(Some(9), Some("Editor"), Some("Code")),
        ],
    )];
    let windows = get_windows_names(&tree);
    assert_eq!(windows.len(), 2);
    assert_eq!(windows[0].id, 5);
    assert_eq!(windows[0].name, "Inbox");
    assert_eq!(windows[0].class_name, Some("Mail".to_string()));
    assert_eq!(windows[1].id, 9);
    assert_eq!(windows[1].name, "Editor");
    assert_eq!(windows[1].class_name, Some("Code".to_string()));
}

#[test]
fn scratch_name_and_bar_class_are_excluded() {
    assert!(!filter_node(&leaf(Some(1), Some("__i3_scratch"), Some("Term"))));
    assert!(!filter_node(&leaf(Some(1), Some("__i3_scratch"), None)));
    assert!(!filter_node(&leaf(Some(2), Some("top bar"), Some("i3bar"))));
    let tree = vec![
        leaf(Some(1), Some("__i3_scratch"), Some("Term")),
        leaf(Some(2), Some("top bar"), Some("i3bar")),
        leaf(Some(3), Some("kept"), Some("Term")),
    ];
    let windows = get_windows_names(&tree);
    assert_eq!(windows.len(), 1);
    assert_eq!(windows[0].id, 3);
}

#[test]
fn filter_keeps_named_windows() {
    assert!(filter_node(&leaf(Some(1), Some("title"), Some("Class"))));
    assert!(filter_node(&leaf(Some(1), Some("title"), None)));
    assert!(filter_node(&leaf(Some(-4), Some(""), Some(""))));
}

#[test]
fn filter_rejects_nodes_without_identifier_or_name() {
    assert!(!filter_node(&leaf(None, Some("title"), Some("Class"))));
    assert!(!filter_node(&leaf(Some(1), None, Some("Class"))));
    assert!(!filter_node(&leaf(None, None, None)));
}

#[test]
fn filter_compares_whole_names() {
    assert!(filter_node(&leaf(Some(1), Some("__i3_scratch2"), None)));
    assert!(filter_node(&leaf(Some(1), Some("__I3_SCRATCH"), None)));
    assert!(filter_node(&leaf(Some(1), Some("i3bar"), Some("__i3_scratch"))));
    assert!(filter_node(&leaf(Some(1), Some("x"), Some("i3bar "))));
}

#[test]
fn flatten_of_nothing_is_empty() {
    let none: Vec<Node> = Vec::new();
    assert!(flatten_nodes(&none).is_empty());
    assert!(get_windows_names(&none).is_empty());
}

#[test]
fn flatten_keeps_leaves_of_any_kind() {
    let tree = vec![leaf(None, None, None), leaf(Some(1), Some("a"), None)];
    let flat = flatten_nodes(&tree);
    assert_eq!(flat.len(), 2);
    assert_eq!(names(&flat), vec![None, Some("a".to_string())]);
}

#[test]
fn flatten_is_depth_first() {
    let tree = vec![
        leaf(Some(1), Some("a"), None),
        container(
            Some("outer"),
            vec![
                container(
                    Some("inner"),
                    vec![leaf(Some(2), Some("b"), None), leaf(Some(3), Some("c"), None)],
                ),
                leaf(Some(4), Some("d"), None),
            ],
        ),
        leaf(Some(5), Some("e"), None),
    ];
    let flat = flatten_nodes(&tree);
    assert_eq!(names(&flat), some(&["a", "b", "c", "d", "e"]));
    let ids: Vec<i32> = get_windows_names(&tree).iter().map(|w| w.id).collect();
    assert_eq!(ids, vec![1, 2, 3, 4, 5]);
}

#[test]
fn flatten_never_yields_a_container() {
    let tree = vec![container(
        Some("outer"),
        vec![container(Some("inner"), vec![leaf(Some(2), Some("b"), None)])],
    )];
    let flat = flatten_nodes(&tree);
    assert_eq!(flat.len(), 1);
    assert!(flat.iter().all(|n| n.nodes.is_empty()));
    assert_eq!(flat[0].name, Some("b".to_string()));
}

#[test]
fn flatten_hands_out_the_nodes_themselves() {
    let tree = vec![container(None, vec![leaf(Some(2), Some("b"), Some("B"))])];
    let flat = flatten_nodes(&tree);
    assert!(std::ptr::eq(flat[0], &tree[0].nodes[0]));
}

#[test]
fn container_with_window_identifier_is_still_expanded() {
    let mut outer = container(Some("outer"), vec![leaf(Some(2), Some("b"), None)]);
    outer.window = Some(1);
    let windows = get_windows_names(&[outer]);
    assert_eq!(windows.len(), 1);
    assert_eq!(windows[0].id, 2);
}

#[test]
fn flatten_of_two_lists_is_the_two_results_in_a_row() {
    let left = vec![container(None, vec![leaf(Some(1), Some("a"), None)])];
    let right = vec![leaf(Some(2), Some("b"), None), leaf(None, Some("c"), None)];
    let mut expected = names(&flatten_nodes(&left));
    expected.extend(names(&flatten_nodes(&right)));
    let mut both = left;
    both.extend(right);
    assert_eq!(names(&flatten_nodes(&both)), expected);
}

#[test]
fn window_without_class_keeps_none() {
    let windows = get_windows_names(&[leaf(Some(8), Some("plain"), None)]);
    assert_eq!(windows.len(), 1);
    assert_eq!(windows[0].class_name, None);
}
