use quickswitch::{Entity, Mapping, Selectable, Window, Workspace};

fn window(id: i32, name: &str) -> Entity {
    Entity::Window(Window { id, name: name.to_string(), class_name: None })
}

fn workspace(name: &str) -> Entity {
    Entity::Workspace(Workspace { name: name.to_string() })
}

#[test]
fn new_mapping_is_empty() {
    let mapping = Mapping::new();
    assert_eq!(mapping.len(), 0);
    assert!(mapping.keys().is_empty());
    assert!(mapping.get("anything").is_none());
    assert!(mapping.get("").is_none());
}

#[test]
fn inserted_label_is_found() {
    let mut mapping = Mapping::new();
    mapping.insert("a".to_string(), window(1, "a"));
    mapping.insert("b".to_string(), workspace("b"));
    assert_eq!(mapping.len(), 2);
    assert_eq!(mapping.get("a").map(|e| e.to_select_string()), Some("[id=\"1\"]".to_string()));
    assert_eq!(mapping.get("b").map(|e| e.to_select_string()), Some("b".to_string()));
    assert!(mapping.get("c").is_none());
}

#[test]
fn labels_are_compared_exactly() {
    let mut mapping = Mapping::new();
    mapping.insert("Mail".to_string(), window(1, "a"));
    assert!(mapping.get("mail").is_none());
    assert!(mapping.get("Mail ").is_none());
    assert!(mapping.get("Mai").is_none());
    assert!(mapping.get("Mail").is_some());
}

#[test]
fn keys_keep_the_order_of_insertion() {
    let mut mapping = Mapping::new();
    for label in ["z", "a", "m", ""] {
        mapping.insert(label.to_string(), workspace(label));
    }
    assert_eq!(mapping.keys(), vec!["z", "a", "m", ""]);
}

#[test]
fn inserting_a_label_again_replaces_its_target() {
    let mut mapping = Mapping::new();
    mapping.insert("x".to_string(), window(1, "first"));
    mapping.insert("y".to_string(), window(2, "second"));
    mapping.insert("x".to_string(), window(3, "third"));
    assert_eq!(mapping.len(), 2);
    assert_eq!(mapping.keys(), vec!["x", "y"]);
    assert_eq!(mapping.get("x").map(|e| e.to_select_string()), Some("[id=\"3\"]".to_string()));
    assert_eq!(mapping.get("y").map(|e| e.to_select_string()), Some("[id=\"2\"]".to_string()));
}

#[test]
fn keys_never_repeat() {
    let mut mapping = Mapping::new();
    for label in ["a", "b", "a", "c", "b", "a"] {
        mapping.insert(label.to_string(), workspace(label));
    }
    assert_eq!(mapping.keys(), vec!["a", "b", "c"]);
    assert_eq!(mapping.len(), 3);
}
