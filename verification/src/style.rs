use vstd::prelude::*;
use vstd::string::*;

use crate::cascade::{cascaded, specified_values};
use crate::css::Stylesheet;
use crate::dom::{Node, NodeType};
use crate::properties::PropertyMap;
use crate::text::same_text;

verus! {

/// How a node takes part in layout.
#[derive(Clone, Copy, Debug, PartialEq, Eq, Structural)]
pub enum Display {
    Inline,
    Block,
    Hidden,
}

/// A node of the style tree: a document node with the properties that were
/// resolved for it, and the style nodes of its children that are not hidden.
#[derive(Debug)]
pub struct StyledNode<'a> {
    pub node: &'a Node,
    pub specified_values: PropertyMap,
    pub children: Vec<StyledNode<'a>>,
}

/// What a style tree holds, as a mathematical value.
pub struct StyledModel {
    pub node: Node,
    pub values: Map<Seq<char>, Seq<char>>,
    pub children: Seq<StyledModel>,
}

/// The display that a property map asks for: `block` or `none` where the
/// property `display` says so, inline in every other case.
pub open spec fn display_of(values: Map<Seq<char>, Seq<char>>) -> Display {
    if values.contains_key("display"@) && values["display"@] == "block"@ {
        Display::Block
    } else if values.contains_key("display"@) && values["display"@] == "none"@ {
        Display::Hidden
    } else {
        Display::Inline
    }
}

/// The display that `values` asks for.
pub fn display(values: &PropertyMap) -> (d: Display)
    ensures
        d == display_of(values@),
{
    match values.get("display") {
        Some(v) => {
            if same_text(v.as_str(), "block") {
                Display::Block
            } else if same_text(v.as_str(), "none") {
                Display::Hidden
            } else {
                Display::Inline
            }
        },
        None => Display::Inline,
    }
}

/// What the style nodes `nodes` hold, node for node.
pub open spec fn models_of<'a>(nodes: Seq<StyledNode<'a>>) -> Seq<StyledModel>
    decreases nodes,
{
    if nodes.len() == 0 {
        Seq::empty()
    } else {
        models_of(nodes.drop_last()).push(nodes.last().view())
    }
}

impl<'a> StyledNode<'a> {
    pub open spec fn view(&self) -> StyledModel
        decreases self,
    {
        StyledModel {
            node: *self.node,
            values: self.specified_values@,
            children: models_of(self.children@),
        }
    }

    /// The value of the property `name`, if the node has one.
    pub fn value(&self, name: &str) -> (r: Option<&String>)
        ensures
            r is Some <==> self@.values.contains_key(name@),
            r matches Some(v) ==> v@ == self@.values[name@],
    {
        self.specified_values.get(name)
    }

    pub fn display(&self) -> (d: Display)
        ensures
            d == display_of(self@.values),
    {
        display(&self.specified_values)
    }
}

/// `models_of` keeps the length and the order.
pub proof fn lemma_models_of<'a>(nodes: Seq<StyledNode<'a>>)
    ensures
        models_of(nodes).len() == nodes.len(),
        forall|i: int| 0 <= i < nodes.len() ==> #[trigger] models_of(nodes)[i] == nodes[i].view(),
    decreases nodes.len(),
{
    if nodes.len() > 0 {
        lemma_models_of(nodes.drop_last());
    }
}

/// The properties of a document node: those that the cascade gives an
/// element, none for a text node.
pub open spec fn node_values(node: Node, sheet: Stylesheet) -> Map<Seq<char>, Seq<char>> {
    match node.node_type {
        NodeType::Element(elem) => cascaded(elem, sheet),
        NodeType::Text(_) => Map::empty(),
    }
}

/// Whether the node's own properties hide it.
pub open spec fn is_hidden(node: Node, sheet: Stylesheet) -> bool {
    display_of(node_values(node, sheet)) == Display::Hidden
}

/// The style tree of `node`: none if the node is hidden, else the node with
/// its properties and the style trees of its children, the hidden ones left
/// out.
pub open spec fn styled(node: Node, sheet: Stylesheet) -> Option<StyledModel>
    decreases node,
{
    if is_hidden(node, sheet) {
        None
    } else {
        Some(
            StyledModel {
                node,
                values: node_values(node, sheet),
                children: styled_all(node.children@, sheet),
            },
        )
    }
}

/// The style trees of those of `nodes` that are not hidden, in order.
pub open spec fn styled_all(nodes: Seq<Node>, sheet: Stylesheet) -> Seq<StyledModel>
    decreases nodes,
{
    if nodes.len() == 0 {
        Seq::empty()
    } else {
        let front = styled_all(nodes.drop_last(), sheet);
        match styled(nodes.last(), sheet) {
            Some(s) => front.push(s),
            None => front,
        }
    }
}

/// Resolves the style of `root` and of the nodes below it.
pub fn style_tree<'a>(root: &'a Node, sheet: &Stylesheet) -> (r: Option<StyledNode<'a>>)
    ensures
        match r {
            Some(s) => styled(*root, *sheet) == Some(s@),
            None => styled(*root, *sheet) is None,
        },
    decreases root,
{
    let values = match &root.node_type {
        NodeType::Element(elem) => specified_values(elem, sheet),
        NodeType::Text(_) => PropertyMap::new(),
    };
    match display(&values) {
        Display::Hidden => {
            return None;
        },
        _ => {},
    }
    let mut children: Vec<StyledNode<'a>> = Vec::new();
    let mut i: usize = 0;
    assert(root.children@.take(0) =~= Seq::<Node>::empty());
    while i < root.children.len()
        invariant
            i <= root.children.len(),
            models_of(children@) == styled_all(root.children@.take(i as int), *sheet),
        decreases root.children.len() - i,
    {
        let ghost before = children@;
        assert(root.children@.take(i + 1).drop_last() =~= root.children@.take(i as int));
        match style_tree(&root.children[i], sheet) {
            Some(child) => {
                children.push(child);
                assert(children@.drop_last() =~= before);
            },
            None => {},
        }
        i = i + 1;
    }
    assert(root.children@.take(i as int) =~= root.children@);
    Some(StyledNode { node: root, specified_values: values, children })
}

impl StyledModel {
    /// The number of nodes of the tree.
    pub open spec fn size(self) -> nat
        decreases self,
    {
        1 + size_all(self.children)
    }
}

/// The number of nodes of the trees of `trees`, taken together.
pub open spec fn size_all(trees: Seq<StyledModel>) -> nat
    decreases trees,
{
    if trees.len() == 0 {
        0
    } else {
        size_all(trees.drop_last()) + trees.last().size()
    }
}

/// The number of nodes at and below `node` that are neither hidden nor below
/// a hidden node.
pub open spec fn visible_count(node: Node, sheet: Stylesheet) -> nat
    decreases node,
{
    if is_hidden(node, sheet) {
        0
    } else {
        1 + visible_count_all(node.children@, sheet)
    }
}

/// The number of nodes at and below `nodes` that are neither hidden nor
/// below a hidden node.
pub open spec fn visible_count_all(nodes: Seq<Node>, sheet: Stylesheet) -> nat
    decreases nodes,
{
    if nodes.len() == 0 {
        0
    } else {
        visible_count_all(nodes.drop_last(), sheet) + visible_count(nodes.last(), sheet)
    }
}

/// A hidden node takes its whole subtree out of the style tree: the style
/// tree has one node for each document node that is neither hidden nor below
/// a hidden node.
pub proof fn lemma_styled_size(node: Node, sheet: Stylesheet)
    ensures
        match styled(node, sheet) {
            Some(s) => s.size() == visible_count(node, sheet),
            None => visible_count(node, sheet) == 0,
        },
    decreases node,
{
    if !is_hidden(node, sheet) {
        lemma_styled_all_size(node.children@, sheet);
    }
}

/// The style trees of `nodes` have one node for each of the nodes at and
/// below `nodes` that is neither hidden nor below a hidden node.
pub proof fn lemma_styled_all_size(nodes: Seq<Node>, sheet: Stylesheet)
    ensures
        size_all(styled_all(nodes, sheet)) == visible_count_all(nodes, sheet),
    decreases nodes,
{
    if nodes.len() > 0 {
        lemma_styled_all_size(nodes.drop_last(), sheet);
        lemma_styled_size(nodes.last(), sheet);
        let front = styled_all(nodes.drop_last(), sheet);
        match styled(nodes.last(), sheet) {
            Some(s) => {
                assert(front.push(s).drop_last() =~= front);
            },
            None => {},
        }
    }
}

/// A text node is never hidden, and its style node has no property.
pub proof fn lemma_text_is_plain(node: Node, sheet: Stylesheet)
    requires
        node.node_type is Text,
    ensures
        styled(node, sheet) is Some,
        styled(node, sheet).unwrap().values == Map::<Seq<char>, Seq<char>>::empty(),
        display_of(styled(node, sheet).unwrap().values) == Display::Inline,
{
}

} // verus!
