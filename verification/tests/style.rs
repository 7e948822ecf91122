use jerry::cascade::{matching_rules, specified_values, MatchedRule};
use jerry::css::{Declaration, Rule, Selector, Specificity, Stylesheet};
use jerry::dom::{elem, text, Attribute, ElementData, Node};
use jerry::matching::match_rule;
use jerry::properties::PropertyMap;
use jerry::style::{display, style_tree, Display};

fn attribute(name: &str, value: &str) -> Attribute {
    Attribute { name: name.to_string(), value: value.to_string() }
}

fn element(tag: &str, attributes: &[(&str, &str)]) -> ElementData {
    ElementData {
        tag_name: tag.to_string(),
        attributes: attributes.iter().map(|(n, v)| attribute(n, v)).collect(),
    }
}

fn node(tag: &str, attributes: &[(&str, &str)], children: Vec<Node>) -> Node {
    elem(tag.to_string(), attributes.iter().map(|(n, v)| attribute(n, v)).collect(), children)
}

fn selector(tag: Option<&str>, id: Option<&str>, classes: &[&str]) -> Selector {
    Selector {
        tag_name: tag.map(|s| s.to_string()),
        id: id.map(|s| s.to_string()),
        classes: classes.iter().map(|s| s.to_string()).collect(),
    }
}

fn rule(selectors: Vec<Selector>, declarations: &[(&str, &str)], source_index: usize) -> Rule {
    Rule {
        selectors,
        declarations: declarations
            .iter()
            .map(|(n, v)| Declaration { name: n.to_string(), value: v.to_string() })
            .collect(),
        source_index,
    }
}

fn value<'a>(values: &'a PropertyMap, name: &str) -> Option<&'a str> {
    values.get(name).map(|s| s.as_str())
}

#[test]
fn specificity_counts_id_classes_and_tag() {
    assert_eq!(
        selector(Some("div"), Some("x"), &["a", "b"]).specificity(),
        Specificity { ids: 1, classes: 2, tags: 1 }
    );
    assert_eq!(selector(None, None, &[]).specificity(), Specificity { ids: 0, classes: 0, tags: 0 });
    assert_eq!(
        selector(None, None, &["a", "b", "a"]).specificity(),
        Specificity { ids: 0, classes: 2, tags: 0 }
    );
}

#[test]
fn specificity_is_compared_part_by_part() {
    let id = Specificity { ids: 1, classes: 0, tags: 0 };
    let classes = Specificity { ids: 0, classes: 5, tags: 1 };
    let class = Specificity { ids: 0, classes: 1, tags: 0 };
    let tag = Specificity { ids: 0, classes: 0, tags: 1 };
    assert!(id.outranks(classes));
    assert!(classes.outranks(class));
    assert!(class.outranks(tag));
    assert!(!tag.outranks(class));
    assert!(!tag.outranks(tag));
}

#[test]
fn selector_parts_must_all_hold() {
    let e = element("div", &[("id", "main"), ("class", "a b")]);
    assert!(jerry::matching::matches(&e, &selector(None, None, &[])));
    assert!(jerry::matching::matches(&e, &selector(Some("div"), None, &[])));
    assert!(!jerry::matching::matches(&e, &selector(Some("p"), None, &[])));
    assert!(jerry::matching::matches(&e, &selector(None, Some("main"), &[])));
    assert!(!jerry::matching::matches(&e, &selector(None, Some("other"), &[])));
    assert!(jerry::matching::matches(&e, &selector(None, None, &["a"])));
    assert!(jerry::matching::matches(&e, &selector(None, None, &["b", "a"])));
    assert!(!jerry::matching::matches(&e, &selector(None, None, &["a", "c"])));
    assert!(jerry::matching::matches(&e, &selector(Some("div"), Some("main"), &["a", "b"])));
    assert!(!jerry::matching::matches(&e, &selector(Some("p"), Some("main"), &["a", "b"])));
}

#[test]
fn selector_with_id_does_not_match_element_without() {
    let e = element("div", &[]);
    assert!(!jerry::matching::matches(&e, &selector(None, Some("main"), &[])));
}

#[test]
fn rule_applies_with_its_strongest_matching_selector() {
    let e = element("div", &[("id", "main"), ("class", "a")]);
    let r = rule(
        vec![
            selector(Some("div"), None, &[]),
            selector(None, Some("other"), &[]),
            selector(None, None, &["a"]),
        ],
        &[],
        0,
    );
    assert_eq!(match_rule(&e, &r), Some(Specificity { ids: 0, classes: 1, tags: 0 }));
    let none = rule(vec![selector(Some("p"), None, &[])], &[], 0);
    assert_eq!(match_rule(&e, &none), None);
    let empty = rule(vec![], &[], 0);
    assert_eq!(match_rule(&e, &empty), None);
}

#[test]
fn matching_rules_in_stylesheet_order() {
    let e = element("div", &[("class", "a")]);
    let sheet = Stylesheet {
        rules: vec![
            rule(vec![selector(None, None, &["a"])], &[], 7),
            rule(vec![selector(Some("p"), None, &[])], &[], 8),
            rule(vec![selector(Some("div"), None, &[])], &[], 9),
        ],
    };
    assert_eq!(
        matching_rules(&e, &sheet),
        vec![
            MatchedRule { specificity: Specificity { ids: 0, classes: 1, tags: 0 }, source_index: 7, rule: 0 },
            MatchedRule { specificity: Specificity { ids: 0, classes: 0, tags: 1 }, source_index: 9, rule: 2 },
        ]
    );
}

#[test]
fn rules_are_applied_by_specificity_then_source_index() {
    let tag = Specificity { ids: 0, classes: 0, tags: 1 };
    let class = Specificity { ids: 0, classes: 1, tags: 0 };
    let a = MatchedRule { specificity: class, source_index: 0, rule: 0 };
    let b = MatchedRule { specificity: tag, source_index: 5, rule: 1 };
    let c = MatchedRule { specificity: tag, source_index: 2, rule: 2 };
    let d = MatchedRule { specificity: tag, source_index: 2, rule: 3 };
    assert!(b.applied_before(a));
    assert!(!a.applied_before(b));
    assert!(c.applied_before(b));
    assert!(!b.applied_before(c));
    assert!(c.applied_before(d));
    assert!(!d.applied_before(c));
    assert!(!a.applied_before(a));
}

#[test]
fn id_outranks_classes_outranks_tag_whatever_the_order() {
    let e = element("div", &[("id", "main"), ("class", "a b")]);
    let by_id = rule(vec![selector(None, Some("main"), &[])], &[("color", "id")], 0);
    let by_classes = rule(vec![selector(None, None, &["a", "b"])], &[("color", "classes")], 1);
    let by_tag = rule(vec![selector(Some("div"), None, &[])], &[("color", "tag")], 2);

    let sheet = Stylesheet { rules: vec![by_id, by_classes, by_tag] };
    assert_eq!(value(&specified_values(&e, &sheet), "color"), Some("id"));

    let by_id = rule(vec![selector(None, Some("main"), &[])], &[("color", "id")], 2);
    let by_classes = rule(vec![selector(None, None, &["a", "b"])], &[("color", "classes")], 1);
    let by_tag = rule(vec![selector(Some("div"), None, &[])], &[("color", "tag")], 0);
    let sheet = Stylesheet { rules: vec![by_tag, by_classes, by_id] };
    assert_eq!(value(&specified_values(&e, &sheet), "color"), Some("id"));

    let by_classes = rule(vec![selector(None, None, &["a", "b"])], &[("color", "classes")], 0);
    let by_tag = rule(vec![selector(Some("div"), None, &[])], &[("color", "tag")], 1);
    let sheet = Stylesheet { rules: vec![by_classes, by_tag] };
    assert_eq!(value(&specified_values(&e, &sheet), "color"), Some("classes"));
}

#[test]
fn equal_specificity_later_source_wins() {
    let e = element("div", &[("class", "a b")]);
    let first = rule(vec![selector(None, None, &["a"])], &[("color", "first")], 0);
    let second = rule(vec![selector(None, None, &["b"])], &[("color", "second")], 1);
    let sheet = Stylesheet { rules: vec![first, second] };
    assert_eq!(value(&specified_values(&e, &sheet), "color"), Some("second"));

    // The source index decides, not the place in the stylesheet.
    let first = rule(vec![selector(None, None, &["a"])], &[("color", "first")], 0);
    let second = rule(vec![selector(None, None, &["b"])], &[("color", "second")], 1);
    let sheet = Stylesheet { rules: vec![second, first] };
    assert_eq!(value(&specified_values(&e, &sheet), "color"), Some("second"));

    // With the same source index, the later place in the stylesheet does.
    let first = rule(vec![selector(None, None, &["a"])], &[("color", "first")], 3);
    let second = rule(vec![selector(None, None, &["b"])], &[("color", "second")], 3);
    let sheet = Stylesheet { rules: vec![first, second] };
    assert_eq!(value(&specified_values(&e, &sheet), "color"), Some("second"));
}

#[test]
fn later_declaration_in_a_rule_wins() {
    let e = element("div", &[]);
    let r = rule(
        vec![selector(Some("div"), None, &[])],
        &[("width", "1px"), ("height", "2px"), ("width", "3px")],
        0,
    );
    let values = specified_values(&e, &Stylesheet { rules: vec![r] });
    assert_eq!(value(&values, "width"), Some("3px"));
    assert_eq!(value(&values, "height"), Some("2px"));
    assert_eq!(value(&values, "depth"), None);
}

#[test]
fn properties_of_all_matching_rules_are_merged() {
    let e = element("div", &[("class", "a")]);
    let sheet = Stylesheet {
        rules: vec![
            rule(vec![selector(Some("div"), None, &[])], &[("width", "10px"), ("color", "tag")], 0),
            rule(vec![selector(None, None, &["a"])], &[("color", "class")], 1),
            rule(vec![selector(Some("p"), None, &[])], &[("height", "10px")], 2),
        ],
    };
    let values = specified_values(&e, &sheet);
    assert_eq!(value(&values, "width"), Some("10px"));
    assert_eq!(value(&values, "color"), Some("class"));
    assert_eq!(value(&values, "height"), None);
}

#[test]
fn no_matching_rule_gives_no_property() {
    let e = element("div", &[]);
    let sheet = Stylesheet { rules: vec![rule(vec![selector(Some("p"), None, &[])], &[("a", "b")], 0)] };
    let values = specified_values(&e, &sheet);
    assert_eq!(value(&values, "a"), None);
    assert_eq!(display(&values), Display::Inline);
}

#[test]
fn property_map_keeps_one_value_for_a_name() {
    let mut m = PropertyMap::new();
    assert_eq!(value(&m, "a"), None);
    m.insert("a".to_string(), "1".to_string());
    m.insert("b".to_string(), "2".to_string());
    m.insert("a".to_string(), "3".to_string());
    assert_eq!(value(&m, "a"), Some("3"));
    assert_eq!(value(&m, "b"), Some("2"));
    assert_eq!(value(&m, "c"), None);
}

#[test]
fn display_follows_the_property() {
    let mut m = PropertyMap::new();
    assert_eq!(display(&m), Display::Inline);
    m.insert("display".to_string(), "block".to_string());
    assert_eq!(display(&m), Display::Block);
    m.insert("display".to_string(), "none".to_string());
    assert_eq!(display(&m), Display::Hidden);
    m.insert("display".to_string(), "flex".to_string());
    assert_eq!(display(&m), Display::Inline);
}

fn count(s: &jerry::style::StyledNode) -> usize {
    1 + s.children.iter().map(count).sum::<usize>()
}

#[test]
fn style_tree_mirrors_the_document() {
    let doc = node(
        "div",
        &[("class", "a")],
        vec![text("t".to_string()), node("p", &[], vec![node("span", &[], vec![])])],
    );
    let sheet = Stylesheet {
        rules: vec![rule(vec![selector(None, None, &["a"])], &[("display", "block")], 0)],
    };
    let styled = style_tree(&doc, &sheet).expect("the root is shown");
    assert_eq!(count(&styled), 4);
    assert_eq!(styled.display(), Display::Block);
    assert_eq!(styled.value("display").map(|s| s.as_str()), Some("block"));
    assert_eq!(styled.children.len(), 2);
    // A text node has no property and is inline.
    assert_eq!(styled.children[0].value("display"), None);
    assert_eq!(styled.children[0].display(), Display::Inline);
    // Nothing is inherited.
    assert_eq!(styled.children[1].value("display"), None);
    assert!(std::ptr::eq(styled.children[1].node, &doc.children[1]));
}

#[test]
fn hidden_node_takes_its_subtree_out() {
    let doc = node(
        "div",
        &[],
        vec![
            node("p", &[("class", "gone")], vec![node("span", &[], vec![]), text("t".to_string())]),
            node("p", &[], vec![]),
        ],
    );
    let sheet = Stylesheet {
        rules: vec![rule(vec![selector(None, None, &["gone"])], &[("display", "none")], 0)],
    };
    let styled = style_tree(&doc, &sheet).expect("the root is shown");
    assert_eq!(count(&styled), 2);
    assert_eq!(styled.children.len(), 1);
    assert!(std::ptr::eq(styled.children[0].node, &doc.children[1]));
}

#[test]
fn hidden_root_gives_no_tree() {
    let doc = node("div", &[], vec![node("p", &[], vec![])]);
    let sheet = Stylesheet {
        rules: vec![rule(vec![selector(Some("div"), None, &[])], &[("display", "none")], 0)],
    };
    assert!(style_tree(&doc, &sheet).is_none());
}

#[test]
fn resolving_twice_gives_the_same_tree() {
    let doc = node("div", &[("class", "a")], vec![node("p", &[], vec![])]);
    let sheet = Stylesheet {
        rules: vec![
            rule(vec![selector(None, None, &["a"])], &[("width", "5px")], 0),
            rule(vec![selector(Some("p"), None, &[])], &[("display", "block")], 1),
        ],
    };
    let a = style_tree(&doc, &sheet).expect("the root is shown");
    let b = style_tree(&doc, &sheet).expect("the root is shown");
    assert_eq!(format!("{:?}", a), format!("{:?}", b));
}
