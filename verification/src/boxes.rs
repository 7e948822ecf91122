use vstd::prelude::*;

use crate::geometry::Dimensions;
use crate::style::{
    display_of, lemma_models_of, models_of, size_all, Display, StyledModel, StyledNode,
};

verus! {

/// What a box was made for: a style node that is laid out as a block, one
/// that is laid out inline, or a run of inline boxes under a block.
#[derive(Clone, Copy, Debug)]
pub enum BoxType<'a> {
    BlockNode(&'a StyledNode<'a>),
    InlineNode(&'a StyledNode<'a>),
    AnonymousBlock,
}

/// A node of the box tree. It owns its children.
#[derive(Debug)]
pub struct LayoutBox<'a> {
    pub dimensions: Dimensions,
    pub box_type: BoxType<'a>,
    pub children: Vec<LayoutBox<'a>>,
}

/// What a box was made for, as a mathematical value.
pub enum BoxTypeModel {
    BlockNode(StyledModel),
    InlineNode(StyledModel),
    AnonymousBlock,
}

/// What a box tree holds, as a mathematical value.
pub struct BoxModel {
    pub dimensions: Dimensions,
    pub box_type: BoxTypeModel,
    pub children: Seq<BoxModel>,
}

impl<'a> BoxType<'a> {
    pub open spec fn view(&self) -> BoxTypeModel {
        match *self {
            BoxType::BlockNode(s) => BoxTypeModel::BlockNode(s@),
            BoxType::InlineNode(s) => BoxTypeModel::InlineNode(s@),
            BoxType::AnonymousBlock => BoxTypeModel::AnonymousBlock,
        }
    }
}

/// What the boxes `boxes` hold, box for box.
pub open spec fn box_models_of<'a>(boxes: Seq<LayoutBox<'a>>) -> Seq<BoxModel>
    decreases boxes,
{
    if boxes.len() == 0 {
        Seq::empty()
    } else {
        box_models_of(boxes.drop_last()).push(boxes.last().view())
    }
}

impl<'a> LayoutBox<'a> {
    pub open spec fn view(&self) -> BoxModel
        decreases self,
    {
        BoxModel {
            dimensions: self.dimensions,
            box_type: self.box_type@,
            children: box_models_of(self.children@),
        }
    }

    /// A box without children, all of its dimensions zero.
    pub fn new(box_type: BoxType<'a>) -> (b: LayoutBox<'a>)
        ensures
            b.dimensions == Dimensions::spec_zero(),
            b.box_type == box_type,
            b.children@.len() == 0,
            b@ == (BoxModel {
                dimensions: Dimensions::spec_zero(),
                box_type: box_type@,
                children: Seq::empty(),
            }),
    {
        LayoutBox { dimensions: Dimensions::zero(), box_type, children: Vec::new() }
    }
}

/// `box_models_of` keeps the length and the order.
pub proof fn lemma_box_models_of<'a>(boxes: Seq<LayoutBox<'a>>)
    ensures
        box_models_of(boxes).len() == boxes.len(),
        forall|i: int| 0 <= i < boxes.len() ==> #[trigger] box_models_of(boxes)[i] == boxes[i].view(),
    decreases boxes.len(),
{
    if boxes.len() > 0 {
        lemma_box_models_of(boxes.drop_last());
    }
}

impl BoxModel {
    /// The properties of the style node that the box was made for; an
    /// anonymous box has none.
    pub open spec fn values(self) -> Map<Seq<char>, Seq<char>> {
        match self.box_type {
            BoxTypeModel::BlockNode(s) => s.values,
            BoxTypeModel::InlineNode(s) => s.values,
            BoxTypeModel::AnonymousBlock => Map::empty(),
        }
    }
}

/// The kind of box that a style node gets: a block where its display is
/// block, an inline box in every other case.
pub open spec fn box_type_of(s: StyledModel) -> BoxTypeModel {
    if display_of(s.values) == Display::Block {
        BoxTypeModel::BlockNode(s)
    } else {
        BoxTypeModel::InlineNode(s)
    }
}

/// An anonymous block with the children `children`.
pub open spec fn anonymous(children: Seq<BoxModel>) -> BoxModel {
    BoxModel {
        dimensions: Dimensions::spec_zero(),
        box_type: BoxTypeModel::AnonymousBlock,
        children,
    }
}

/// The children `acc` of a box, after `child` was put behind them. Under a
/// block, a child that is no block goes into an anonymous block: the one that
/// ends `acc`, or a new one. Every other child stands for itself.
pub open spec fn placed(under_block: bool, acc: Seq<BoxModel>, child: BoxModel) -> Seq<BoxModel> {
    if !under_block || child.box_type is BlockNode {
        acc.push(child)
    } else if acc.len() > 0 && acc.last().box_type is AnonymousBlock {
        acc.drop_last().push(anonymous(acc.last().children.push(child)))
    } else {
        acc.push(anonymous(seq![child]))
    }
}

/// The box tree of a style tree, before layout: all dimensions are zero.
pub open spec fn box_tree(s: StyledModel) -> BoxModel
    decreases s,
{
    BoxModel {
        dimensions: Dimensions::spec_zero(),
        box_type: box_type_of(s),
        children: boxes_of(box_type_of(s) is BlockNode, s.children),
    }
}

/// The boxes that the style nodes `kids` give as children of one box.
pub open spec fn boxes_of(under_block: bool, kids: Seq<StyledModel>) -> Seq<BoxModel>
    decreases kids,
{
    if kids.len() == 0 {
        Seq::empty()
    } else {
        placed(under_block, boxes_of(under_block, kids.drop_last()), box_tree(kids.last()))
    }
}

/// Builds the box tree of a style tree.
pub fn build_layout_tree<'a>(style_node: &'a StyledNode<'a>) -> (b: LayoutBox<'a>)
    ensures
        b@ == box_tree(style_node@),
    decreases style_node,
{
    let box_type = match style_node.display() {
        Display::Block => BoxType::BlockNode(style_node),
        _ => BoxType::InlineNode(style_node),
    };
    let under_block = match box_type {
        BoxType::BlockNode(_) => true,
        _ => false,
    };
    let mut children: Vec<LayoutBox<'a>> = Vec::new();
    let mut i: usize = 0;
    proof {
        lemma_models_of(style_node.children@);
        assert(models_of(style_node.children@).take(0) =~= Seq::<StyledModel>::empty());
    }
    while i < style_node.children.len()
        invariant
            i <= style_node.children.len(),
            models_of(style_node.children@).len() == style_node.children.len(),
            forall|k: int|
                0 <= k < style_node.children.len() ==> #[trigger] models_of(
                    style_node.children@,
                )[k] == style_node.children[k]@,
            box_models_of(children@) == boxes_of(
                under_block,
                models_of(style_node.children@).take(i as int),
            ),
        decreases style_node.children.len() - i,
    {
        let ghost kids = models_of(style_node.children@);
        let ghost before = children@;
        assert(kids.take(i + 1).drop_last() =~= kids.take(i as int));
        assert(kids.take(i + 1).last() == style_node.children[i as int]@);
        let child = build_layout_tree(&style_node.children[i]);
        let is_block = match child.box_type {
            BoxType::BlockNode(_) => true,
            _ => false,
        };
        let ghost acc = boxes_of(under_block, kids.take(i as int));
        assert(boxes_of(under_block, kids.take(i + 1)) == placed(under_block, acc, child@));
        if !under_block || is_block {
            children.push(child);
            assert(children@.drop_last() =~= before);
            assert(box_models_of(children@) == acc.push(child@));
        } else {
            let ends_in_anonymous = children.len() > 0 && match children[children.len() - 1].box_type {
                BoxType::AnonymousBlock => true,
                _ => false,
            };
            proof {
                lemma_box_models_of(before);
                lemma_anonymous_is_zero(under_block, kids.take(i as int));
            }
            if ends_in_anonymous {
                assert(before.last()@ == boxes_of(under_block, kids.take(i as int)).last());
                assert(before.last().dimensions == Dimensions::spec_zero());
                let mut last = children.pop().unwrap();
                let ghost inner = last.children@;
                let ghost front = children@;
                last.children.push(child);
                assert(last.children@.drop_last() =~= inner);
                assert(before.drop_last() =~= front);
                assert(box_models_of(front) =~= acc.drop_last()) by {
                    assert(box_models_of(before) == box_models_of(before.drop_last()).push(
                        before.last()@,
                    ));
                }
                assert(last@ == anonymous(acc.last().children.push(child@)));
                children.push(last);
                assert(children@.drop_last() =~= front);
                assert(box_models_of(children@) == acc.drop_last().push(last@));
            } else {
                let mut fresh = LayoutBox::new(BoxType::AnonymousBlock);
                fresh.children.push(child);
                proof {
                    lemma_box_models_of(fresh.children@);
                }
                assert(box_models_of(fresh.children@) =~= seq![child@]);
                assert(fresh@ == anonymous(seq![child@]));
                children.push(fresh);
                assert(children@.drop_last() =~= before);
                assert(box_models_of(children@) == acc.push(fresh@));
            }
        }
        i = i + 1;
    }
    assert(models_of(style_node.children@).take(i as int) =~= models_of(style_node.children@));
    LayoutBox { dimensions: Dimensions::zero(), box_type, children }
}

/// Every box that `boxes_of` gives has dimensions zero.
pub proof fn lemma_anonymous_is_zero(under_block: bool, kids: Seq<StyledModel>)
    ensures
        forall|k: int|
            0 <= k < boxes_of(under_block, kids).len() ==> (#[trigger] boxes_of(
                under_block,
                kids,
            )[k]).dimensions == Dimensions::spec_zero(),
    decreases kids.len(),
{
    if kids.len() > 0 {
        lemma_anonymous_is_zero(under_block, kids.drop_last());
        let front = boxes_of(under_block, kids.drop_last());
        let child = box_tree(kids.last());
        let all = boxes_of(under_block, kids);
        assert(all == placed(under_block, front, child));
        assert forall|k: int| 0 <= k < all.len() implies (#[trigger] all[k]).dimensions
            == Dimensions::spec_zero() by {
            if !under_block || child.box_type is BlockNode {
                if k < front.len() {
                    assert(all[k] == front[k]);
                }
            } else if front.len() > 0 && front.last().box_type is AnonymousBlock {
                if k < front.len() - 1 {
                    assert(all[k] == front[k]);
                }
            } else {
                if k < front.len() {
                    assert(all[k] == front[k]);
                }
            }
        }
    }
}

impl BoxModel {
    /// The number of boxes of the tree.
    pub open spec fn count(self) -> nat
        decreases self,
    {
        1 + count_all(self.children)
    }

    /// The number of anonymous boxes of the tree.
    pub open spec fn anonymous_count(self) -> nat
        decreases self,
    {
        (if self.box_type is AnonymousBlock {
            1nat
        } else {
            0nat
        }) + anonymous_count_all(self.children)
    }

    /// Whether the children of the box are of one kind. Under a block there
    /// is no inline box: each child is a block, or an anonymous block that
    /// holds one or more inline boxes and nothing else, and no two anonymous
    /// blocks are neighbours.
    pub open spec fn children_sorted(self) -> bool {
        self.box_type is BlockNode ==> {
            &&& forall|i: int|
                0 <= i < self.children.len() ==> is_block_or_run(#[trigger] self.children[i])
            &&& forall|i: int, j: int|
                0 <= i && j == i + 1 && j < self.children.len() ==> !((
                #[trigger] self.children[i]).box_type is AnonymousBlock && (
                #[trigger] self.children[j]).box_type is AnonymousBlock)
        }
    }
}

/// Whether `b` is a block, or an anonymous block that holds one or more
/// inline boxes and nothing else.
pub open spec fn is_block_or_run(b: BoxModel) -> bool {
    ||| b.box_type is BlockNode
    ||| {
        &&& b.box_type is AnonymousBlock
        &&& b.children.len() > 0
        &&& forall|j: int| 0 <= j < b.children.len() ==> (#[trigger] b.children[j]).box_type is InlineNode
    }
}

/// The number of boxes of the trees of `boxes`, taken together.
pub open spec fn count_all(boxes: Seq<BoxModel>) -> nat
    decreases boxes,
{
    if boxes.len() == 0 {
        0
    } else {
        count_all(boxes.drop_last()) + boxes.last().count()
    }
}

/// The number of anonymous boxes of the trees of `boxes`, taken together.
pub open spec fn anonymous_count_all(boxes: Seq<BoxModel>) -> nat
    decreases boxes,
{
    if boxes.len() == 0 {
        0
    } else {
        anonymous_count_all(boxes.drop_last()) + boxes.last().anonymous_count()
    }
}

proof fn lemma_count_push(boxes: Seq<BoxModel>, b: BoxModel)
    ensures
        count_all(boxes.push(b)) == count_all(boxes) + b.count(),
        anonymous_count_all(boxes.push(b)) == anonymous_count_all(boxes) + b.anonymous_count(),
{
    assert(boxes.push(b).drop_last() =~= boxes);
}

proof fn lemma_boxes_of_count(under_block: bool, kids: Seq<StyledModel>)
    ensures
        count_all(boxes_of(under_block, kids)) == size_all(kids) + anonymous_count_all(
            boxes_of(under_block, kids),
        ),
    decreases kids,
{
    if kids.len() > 0 {
        lemma_boxes_of_count(under_block, kids.drop_last());
        lemma_box_count(kids.last());
        let acc = boxes_of(under_block, kids.drop_last());
        let child = box_tree(kids.last());
        let all = boxes_of(under_block, kids);
        assert(all == placed(under_block, acc, child));
        assert(size_all(kids) == size_all(kids.drop_last()) + kids.last().size());
        if !under_block || child.box_type is BlockNode {
            lemma_count_push(acc, child);
        } else if acc.len() > 0 && acc.last().box_type is AnonymousBlock {
            let last = acc.last();
            let run = anonymous(last.children.push(child));
            lemma_count_push(acc.drop_last(), run);
            lemma_count_push(last.children, child);
            assert(count_all(acc) == count_all(acc.drop_last()) + last.count());
            assert(anonymous_count_all(acc) == anonymous_count_all(acc.drop_last())
                + last.anonymous_count());
            assert(last.count() == 1 + count_all(last.children));
            assert(last.anonymous_count() == 1 + anonymous_count_all(last.children));
            assert(run.count() == 1 + count_all(run.children));
            assert(run.anonymous_count() == 1 + anonymous_count_all(run.children));
        } else {
            let run = anonymous(seq![child]);
            lemma_count_push(acc, run);
            lemma_count_push(Seq::<BoxModel>::empty(), child);
            assert(Seq::<BoxModel>::empty().push(child) =~= seq![child]);
            assert(count_all(Seq::<BoxModel>::empty()) == 0);
            assert(anonymous_count_all(Seq::<BoxModel>::empty()) == 0);
            assert(run.count() == 1 + count_all(run.children));
            assert(run.anonymous_count() == 1 + anonymous_count_all(run.children));
        }
    }
}

/// The box tree has one box for each node of the style tree, and the
/// anonymous boxes besides.
pub proof fn lemma_box_count(s: StyledModel)
    ensures
        box_tree(s).count() == s.size() + box_tree(s).anonymous_count(),
    decreases s,
{
    lemma_boxes_of_count(box_type_of(s) is BlockNode, s.children);
}

proof fn lemma_boxes_of_sorted(kids: Seq<StyledModel>)
    ensures
        forall|i: int|
            0 <= i < boxes_of(true, kids).len() ==> is_block_or_run(#[trigger] boxes_of(true, kids)[i]),
        forall|i: int, j: int|
            0 <= i && j == i + 1 && j < boxes_of(true, kids).len() ==> !((#[trigger] boxes_of(
                true,
                kids,
            )[i]).box_type is AnonymousBlock && (#[trigger] boxes_of(
                true,
                kids,
            )[j]).box_type is AnonymousBlock),
    decreases kids.len(),
{
    if kids.len() > 0 {
        lemma_boxes_of_sorted(kids.drop_last());
        let acc = boxes_of(true, kids.drop_last());
        let child = box_tree(kids.last());
        let all = boxes_of(true, kids);
        assert(all == placed(true, acc, child));
        if child.box_type is BlockNode {
            assert forall|i: int| 0 <= i < all.len() implies is_block_or_run(#[trigger] all[i]) by {
                if i < acc.len() {
                    assert(all[i] == acc[i]);
                }
            }
            assert forall|i: int, j: int| 0 <= i && j == i + 1 && j < all.len() implies !((
            #[trigger] all[i]).box_type is AnonymousBlock && (
            #[trigger] all[j]).box_type is AnonymousBlock) by {
                if j < acc.len() {
                    assert(all[i] == acc[i] && all[j] == acc[j]);
                }
            }
        } else if acc.len() > 0 && acc.last().box_type is AnonymousBlock {
            let run = anonymous(acc.last().children.push(child));
            assert(is_block_or_run(acc[acc.len() - 1]));
            assert forall|k: int| 0 <= k < run.children.len() implies (
            #[trigger] run.children[k]).box_type is InlineNode by {
                if k < acc.last().children.len() {
                    assert(run.children[k] == acc.last().children[k]);
                }
            }
            assert forall|i: int| 0 <= i < all.len() implies is_block_or_run(#[trigger] all[i]) by {
                if i < acc.len() - 1 {
                    assert(all[i] == acc[i]);
                }
            }
            assert forall|i: int, j: int| 0 <= i && j == i + 1 && j < all.len() implies !((
            #[trigger] all[i]).box_type is AnonymousBlock && (
            #[trigger] all[j]).box_type is AnonymousBlock) by {
                assert(all[i] == acc[i]);
                if j < acc.len() - 1 {
                    assert(all[j] == acc[j]);
                } else {
                    assert(acc[j].box_type is AnonymousBlock);
                }
            }
        } else {
            let run = anonymous(seq![child]);
            assert forall|i: int| 0 <= i < all.len() implies is_block_or_run(#[trigger] all[i]) by {
                if i < acc.len() {
                    assert(all[i] == acc[i]);
                } else {
                    assert(all[i] == run);
                    assert(run.children[0] == child);
                }
            }
            assert forall|i: int, j: int| 0 <= i && j == i + 1 && j < all.len() implies !((
            #[trigger] all[i]).box_type is AnonymousBlock && (
            #[trigger] all[j]).box_type is AnonymousBlock) by {
                assert(all[i] == acc[i]);
                if j < acc.len() {
                    assert(all[j] == acc[j]);
                }
            }
        }
    }
}

/// In the box tree of a style tree, block and inline boxes are never
/// children of one block.
pub proof fn lemma_box_tree_sorted(s: StyledModel)
    ensures
        box_tree(s).children_sorted(),
{
    lemma_boxes_of_sorted(s.children);
}

/// Whether the children of every box of the tree are of one kind.
pub open spec fn sorted_throughout(b: BoxModel) -> bool
    decreases b,
{
    &&& b.children_sorted()
    &&& forall|i: int| 0 <= i < b.children.len() ==> sorted_throughout(#[trigger] b.children[i])
}

proof fn lemma_boxes_of_sorted_throughout(under_block: bool, kids: Seq<StyledModel>)
    ensures
        forall|i: int|
            0 <= i < boxes_of(under_block, kids).len() ==> sorted_throughout(
                #[trigger] boxes_of(under_block, kids)[i],
            ),
    decreases kids,
{
    if kids.len() > 0 {
        lemma_boxes_of_sorted_throughout(under_block, kids.drop_last());
        lemma_box_tree_sorted_throughout(kids.last());
        let acc = boxes_of(under_block, kids.drop_last());
        let child = box_tree(kids.last());
        let all = boxes_of(under_block, kids);
        assert(all == placed(under_block, acc, child));
        assert forall|i: int| 0 <= i < all.len() implies sorted_throughout(#[trigger] all[i]) by {
            if !under_block || child.box_type is BlockNode {
                if i < acc.len() {
                    assert(all[i] == acc[i]);
                }
            } else if acc.len() > 0 && acc.last().box_type is AnonymousBlock {
                if i < acc.len() - 1 {
                    assert(all[i] == acc[i]);
                } else {
                    let run = anonymous(acc.last().children.push(child));
                    assert(all[i] == run);
                    assert(sorted_throughout(acc[acc.len() - 1]));
                    assert forall|j: int| 0 <= j < run.children.len() implies sorted_throughout(
                        #[trigger] run.children[j],
                    ) by {
                        if j < acc.last().children.len() {
                            assert(run.children[j] == acc.last().children[j]);
                        }
                    }
                }
            } else {
                if i < acc.len() {
                    assert(all[i] == acc[i]);
                } else {
                    let run = anonymous(seq![child]);
                    assert(all[i] == run);
                    assert forall|j: int| 0 <= j < run.children.len() implies sorted_throughout(
                        #[trigger] run.children[j],
                    ) by {
                        assert(run.children[j] == child);
                    }
                }
            }
        }
    }
}

/// In the box tree of a style tree, no block has block and inline boxes
/// among its children, at any depth.
pub proof fn lemma_box_tree_sorted_throughout(s: StyledModel)
    ensures
        sorted_throughout(box_tree(s)),
    decreases s,
{
    lemma_box_tree_sorted(s);
    lemma_boxes_of_sorted_throughout(box_type_of(s) is BlockNode, s.children);
    let b = box_tree(s);
    assert(b.children == boxes_of(box_type_of(s) is BlockNode, s.children));
    assert forall|i: int| 0 <= i < b.children.len() implies sorted_throughout(
        #[trigger] b.children[i],
    ) by {}
}

} // verus!
