use jerry::dom::{elem, text, Attribute, ElementData, NodeType};
use jerry::text::{chars_of, contains_token, same_text};

fn attribute(name: &str, value: &str) -> Attribute {
    Attribute { name: name.to_string(), value: value.to_string() }
}

fn element(attributes: Vec<Attribute>) -> ElementData {
    ElementData { tag_name: "p".to_string(), attributes }
}

#[test]
fn text_node_has_no_children() {
    let node = text("hello".to_string());
    assert!(node.children.is_empty());
    assert!(matches!(node.node_type, NodeType::Text(ref s) if s == "hello"));
}

#[test]
fn element_node_keeps_its_parts() {
    let node = elem(
        "div".to_string(),
        vec![attribute("id", "main")],
        vec![text("a".to_string()), text("b".to_string())],
    );
    assert_eq!(node.children.len(), 2);
    match node.node_type {
        NodeType::Element(e) => {
            assert_eq!(e.tag_name, "div");
            assert_eq!(e.attributes.len(), 1);
        }
        NodeType::Text(_) => panic!("an element was asked for"),
    }
}

#[test]
fn first_attribute_of_a_name_counts() {
    let e = element(vec![attribute("id", "one"), attribute("lang", "en"), attribute("id", "two")]);
    assert_eq!(e.attribute("id").map(|s| s.as_str()), Some("one"));
    assert_eq!(e.attribute("lang").map(|s| s.as_str()), Some("en"));
    assert_eq!(e.attribute("class"), None);
    assert_eq!(e.id().map(|s| s.as_str()), Some("one"));
}

#[test]
fn element_without_id() {
    let e = element(vec![attribute("class", "a")]);
    assert_eq!(e.id(), None);
}

#[test]
fn classes_are_the_words_of_the_class_attribute() {
    let e = element(vec![attribute("class", "note wide  warning")]);
    assert!(e.has_class("note"));
    assert!(e.has_class("wide"));
    assert!(e.has_class("warning"));
    assert!(!e.has_class("warn"));
    assert!(!e.has_class("ide"));
    assert!(!e.has_class("note wide"));
    assert!(!e.has_class(""));
}

#[test]
fn element_without_class_attribute_has_no_class() {
    let e = element(vec![attribute("id", "x")]);
    assert!(!e.has_class("x"));
}

#[test]
fn tokens_are_bounded_by_spaces() {
    assert!(contains_token("a", "a"));
    assert!(contains_token(" a ", "a"));
    assert!(contains_token("ab a", "a"));
    assert!(!contains_token("ab ba", "a"));
    assert!(!contains_token("", "a"));
    assert!(!contains_token("a b", "a b"));
    assert!(contains_token("é ü", "ü"));
}

#[test]
fn text_is_compared_by_characters() {
    assert!(same_text("auto", "auto"));
    assert!(!same_text("auto", "Auto"));
    assert!(!same_text("auto", "aut"));
    assert!(same_text("", ""));
    assert_eq!(chars_of("héllo"), vec!['h', 'é', 'l', 'l', 'o']);
}
