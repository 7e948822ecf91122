use vstd::prelude::*;
use vstd::string::*;

use crate::text::{contains_token, has_token, same_text};

verus! {

/// One attribute of an element.
#[derive(Debug)]
pub struct Attribute {
    pub name: String,
    pub value: String,
}

/// An element's tag name and its attributes, in the order they were written.
#[derive(Debug)]
pub struct ElementData {
    pub tag_name: String,
    pub attributes: Vec<Attribute>,
}

/// What a node is: a run of text, or an element.
#[derive(Debug)]
pub enum NodeType {
    Text(String),
    Element(ElementData),
}

/// A node of the document tree. It owns its children.
#[derive(Debug)]
pub struct Node {
    pub children: Vec<Node>,
    pub node_type: NodeType,
}

/// The value of the first attribute of `attributes` that is named `name`.
pub open spec fn find_attribute(attributes: Seq<Attribute>, name: Seq<char>) -> Option<Seq<char>>
    decreases attributes.len(),
{
    if attributes.len() == 0 {
        None
    } else if attributes[0].name@ == name {
        Some(attributes[0].value@)
    } else {
        find_attribute(attributes.drop_first(), name)
    }
}

/// A text node.
pub fn text(data: String) -> (node: Node)
    ensures
        node.children@.len() == 0,
        node.node_type == NodeType::Text(data),
{
    Node { children: Vec::new(), node_type: NodeType::Text(data) }
}

/// An element node.
pub fn elem(tag_name: String, attributes: Vec<Attribute>, children: Vec<Node>) -> (node: Node)
    ensures
        node.children == children,
        node.node_type == NodeType::Element(ElementData { tag_name, attributes }),
{
    Node { children, node_type: NodeType::Element(ElementData { tag_name, attributes }) }
}

impl ElementData {
    /// The value of the attribute `name`: where several attributes have that
    /// name, the first one counts.
    pub open spec fn spec_attribute(&self, name: Seq<char>) -> Option<Seq<char>> {
        find_attribute(self.attributes@, name)
    }

    pub open spec fn spec_id(&self) -> Option<Seq<char>> {
        self.spec_attribute("id"@)
    }

    /// Whether `class` is one of the space-separated words of the `class`
    /// attribute.
    pub open spec fn spec_has_class(&self, class: Seq<char>) -> bool {
        match self.spec_attribute("class"@) {
            Some(list) => has_token(list, class),
            None => false,
        }
    }

    pub fn attribute(&self, name: &str) -> (r: Option<&String>)
        ensures
            r is Some <==> self.spec_attribute(name@) is Some,
            r matches Some(v) ==> Some(v@) == self.spec_attribute(name@),
    {
        let mut i: usize = 0;
        assert(self.attributes@.skip(0) =~= self.attributes@);
        while i < self.attributes.len()
            invariant
                i <= self.attributes.len(),
                find_attribute(self.attributes@, name@) == find_attribute(
                    self.attributes@.skip(i as int),
                    name@,
                ),
            decreases self.attributes.len() - i,
        {
            assert(self.attributes@.skip(i as int).drop_first() =~= self.attributes@.skip(i + 1));
            if same_text(self.attributes[i].name.as_str(), name) {
                return Some(&self.attributes[i].value);
            }
            i = i + 1;
        }
        None
    }

    pub fn id(&self) -> (r: Option<&String>)
        ensures
            r is Some <==> self.spec_id() is Some,
            r matches Some(v) ==> Some(v@) == self.spec_id(),
    {
        self.attribute("id")
    }

    pub fn has_class(&self, class: &str) -> (r: bool)
        ensures
            r == self.spec_has_class(class@),
    {
        match self.attribute("class") {
            Some(list) => contains_token(list.as_str(), class),
            None => false,
        }
    }
}

} // verus!
