use vstd::prelude::*;
use vstd::string::*;

use crate::boxes::{
    anonymous_count_all, box_models_of, box_tree, build_layout_tree, count_all, is_block_or_run,
    lemma_box_models_of, lemma_box_tree_sorted_throughout, sorted_throughout, BoxModel, BoxType,
    LayoutBox,
};
use crate::geometry::{saturate, Dimensions, EdgeSizes, Rect};
use crate::properties::PropertyMap;
use crate::style::StyledNode;
use crate::text::same_text;
use crate::values::{clamp_px, length_of, parse_length};

verus! {

/// A length that a property asks for: `auto`, or so many pixels.
#[derive(Clone, Copy, Debug, PartialEq, Eq, Structural)]
pub enum Length {
    Auto,
    Px(i32),
}

impl Length {
    /// The length in pixels; `auto` counts as none.
    pub open spec fn spec_px(self) -> i32 {
        match self {
            Length::Auto => 0,
            Length::Px(v) => v,
        }
    }

    #[verifier::when_used_as_spec(spec_px)]
    pub fn px(self) -> (v: i32)
        ensures
            v == self.spec_px(),
    {
        match self {
            Length::Auto => 0,
            Length::Px(v) => v,
        }
    }
}

/// The length that `values` gives the property `name`: `default` where the
/// property is not set, `auto` where its value is that word, the length that
/// its value writes, and zero where the value writes none.
pub open spec fn length_or(values: Map<Seq<char>, Seq<char>>, name: Seq<char>, default: Length) -> Length {
    if !values.contains_key(name) {
        default
    } else if values[name] == "auto"@ {
        Length::Auto
    } else {
        match length_of(values[name]) {
            Some(v) => Length::Px(v),
            None => Length::Px(0),
        }
    }
}

/// The properties that a box is laid out and painted with.
pub open spec fn values_of(values: Option<&PropertyMap>) -> Map<Seq<char>, Seq<char>> {
    match values {
        Some(m) => m@,
        None => Map::empty(),
    }
}

/// Looks up the length that `values` gives the property `name`.
pub fn lookup(values: Option<&PropertyMap>, name: &str, default: Length) -> (r: Length)
    ensures
        r == length_or(values_of(values), name@, default),
{
    let found = match values {
        Some(m) => m.get(name),
        None => None,
    };
    match found {
        Some(v) => {
            if same_text(v.as_str(), "auto") {
                Length::Auto
            } else {
                match parse_length(v.as_str()) {
                    Some(px) => Length::Px(px),
                    None => Length::Px(0),
                }
            }
        },
        None => default,
    }
}

/// The horizontal sizes of a box, as exact numbers.
pub struct Horizontal {
    pub width: int,
    pub margin_left: int,
    pub margin_right: int,
    pub border_left: int,
    pub border_right: int,
    pub padding_left: int,
    pub padding_right: int,
}

impl Horizontal {
    pub open spec fn total(self) -> int {
        self.margin_left + self.border_left + self.padding_left + self.width + self.padding_right
            + self.border_right + self.margin_right
    }
}

/// The horizontal sizes of a box with the properties `values` in a container
/// of the width `containing_width`.
///
/// Borders and paddings are as the properties say. Where the width is set and
/// the sizes that are set add up to more than the container, a margin that is
/// `auto` counts as zero. Then: a width that is `auto` takes the space that
/// is left, which may be less than none, and margins that are `auto` are
/// zero; with the width set, two `auto` margins share the space that is
/// left, the right one taking the odd pixel; one `auto` margin takes all of
/// it; and where nothing is `auto`, the right margin is changed by what is
/// left or lacking.
pub open spec fn solve_width(values: Map<Seq<char>, Seq<char>>, containing_width: int) -> Horizontal {
    let width = length_or(values, "width"@, Length::Auto);
    let margin_left = length_or(values, "margin-left"@, Length::Px(0));
    let margin_right = length_or(values, "margin-right"@, Length::Px(0));
    let border_left = length_or(values, "border-left-width"@, Length::Px(0)).spec_px();
    let border_right = length_or(values, "border-right-width"@, Length::Px(0)).spec_px();
    let padding_left = length_or(values, "padding-left"@, Length::Px(0)).spec_px();
    let padding_right = length_or(values, "padding-right"@, Length::Px(0)).spec_px();
    let total = margin_left.spec_px() + margin_right.spec_px() + border_left + border_right
        + padding_left + padding_right + width.spec_px();
    let too_wide = !(width is Auto) && total > containing_width;
    let left_auto = margin_left is Auto && !too_wide;
    let right_auto = margin_right is Auto && !too_wide;
    let underflow = containing_width - total;
    let sides: (int, int, int) = if width is Auto {
        (underflow, margin_left.spec_px() as int, margin_right.spec_px() as int)
    } else if left_auto && right_auto {
        (width.spec_px() as int, underflow / 2, underflow - underflow / 2)
    } else if left_auto {
        (width.spec_px() as int, underflow, margin_right.spec_px() as int)
    } else if right_auto {
        (width.spec_px() as int, margin_left.spec_px() as int, underflow)
    } else {
        (width.spec_px() as int, margin_left.spec_px() as int, margin_right.spec_px() + underflow)
    };
    Horizontal {
        width: sides.0,
        margin_left: sides.1,
        margin_right: sides.2,
        border_left: border_left as int,
        border_right: border_right as int,
        padding_left: padding_left as int,
        padding_right: padding_right as int,
    }
}

/// The sizes of a box always add up to the width of its container.
pub proof fn lemma_width_fills_container(values: Map<Seq<char>, Seq<char>>, containing_width: int)
    ensures
        solve_width(values, containing_width).total() == containing_width,
{
}

/// The place in which a box is laid out: the content area of its container,
/// whose height is not known yet.
#[derive(Clone, Copy, Debug, PartialEq, Eq, Structural)]
pub struct Container {
    pub x: i32,
    pub y: i32,
    pub width: i32,
}

/// The dimensions of a box with the properties `values` that is laid out in
/// `c`, below boxes of the total height `cursor`; its own height is still
/// zero. Each size that is stored saturates at the `i32` bounds.
pub open spec fn framed(values: Map<Seq<char>, Seq<char>>, c: Container, cursor: int) -> Dimensions {
    let h = solve_width(values, c.width as int);
    let margin = EdgeSizes {
        left: clamp_px(h.margin_left),
        right: clamp_px(h.margin_right),
        top: length_or(values, "margin-top"@, Length::Px(0)).spec_px(),
        bottom: length_or(values, "margin-bottom"@, Length::Px(0)).spec_px(),
    };
    let border = EdgeSizes {
        left: clamp_px(h.border_left),
        right: clamp_px(h.border_right),
        top: length_or(values, "border-top-width"@, Length::Px(0)).spec_px(),
        bottom: length_or(values, "border-bottom-width"@, Length::Px(0)).spec_px(),
    };
    let padding = EdgeSizes {
        left: clamp_px(h.padding_left),
        right: clamp_px(h.padding_right),
        top: length_or(values, "padding-top"@, Length::Px(0)).spec_px(),
        bottom: length_or(values, "padding-bottom"@, Length::Px(0)).spec_px(),
    };
    Dimensions {
        content: Rect {
            x: clamp_px(c.x + margin.left + border.left + padding.left),
            y: clamp_px(c.y + cursor + margin.top + border.top + padding.top),
            width: clamp_px(h.width),
            height: 0,
        },
        padding,
        border,
        margin,
    }
}

/// The greatest total height, in either direction, that the boxes laid out
/// before a box can have.
pub open spec fn cursor_limit() -> int {
    0x10_0000_0000_0000_0000_0000_0000
}

/// Resolves the widths of a box and its place in `c`, below boxes of the
/// total height `cursor`.
fn frame(values: Option<&PropertyMap>, c: Container, cursor: i128) -> (d: Dimensions)
    requires
        -cursor_limit() <= cursor <= cursor_limit(),
    ensures
        d == framed(values_of(values), c, cursor as int),
{
    let width = lookup(values, "width", Length::Auto);
    let margin_left = lookup(values, "margin-left", Length::Px(0));
    let margin_right = lookup(values, "margin-right", Length::Px(0));
    let border_left = lookup(values, "border-left-width", Length::Px(0)).px();
    let border_right = lookup(values, "border-right-width", Length::Px(0)).px();
    let padding_left = lookup(values, "padding-left", Length::Px(0)).px();
    let padding_right = lookup(values, "padding-right", Length::Px(0)).px();
    let total: i64 = margin_left.px() as i64 + margin_right.px() as i64 + border_left as i64
        + border_right as i64 + padding_left as i64 + padding_right as i64 + width.px() as i64;
    let width_auto = match width {
        Length::Auto => true,
        _ => false,
    };
    let too_wide = !width_auto && total > c.width as i64;
    let left_auto = !too_wide && match margin_left {
        Length::Auto => true,
        _ => false,
    };
    let right_auto = !too_wide && match margin_right {
        Length::Auto => true,
        _ => false,
    };
    let underflow: i64 = c.width as i64 - total;
    let mut w: i64 = width.px() as i64;
    let mut ml: i64 = margin_left.px() as i64;
    let mut mr: i64 = margin_right.px() as i64;
    if width_auto {
        w = underflow;
    } else if left_auto && right_auto {
        ml = underflow / 2;
        mr = underflow - ml;
    } else if left_auto {
        ml = underflow;
    } else if right_auto {
        mr = underflow;
    } else {
        mr = mr + underflow;
    }
    let margin = EdgeSizes {
        left: saturate(ml as i128),
        right: saturate(mr as i128),
        top: lookup(values, "margin-top", Length::Px(0)).px(),
        bottom: lookup(values, "margin-bottom", Length::Px(0)).px(),
    };
    let border = EdgeSizes {
        left: border_left,
        right: border_right,
        top: lookup(values, "border-top-width", Length::Px(0)).px(),
        bottom: lookup(values, "border-bottom-width", Length::Px(0)).px(),
    };
    let padding = EdgeSizes {
        left: padding_left,
        right: padding_right,
        top: lookup(values, "padding-top", Length::Px(0)).px(),
        bottom: lookup(values, "padding-bottom", Length::Px(0)).px(),
    };
    let x = saturate(c.x as i128 + margin.left as i128 + border.left as i128 + padding.left as i128);
    let y = saturate(
        c.y as i128 + cursor + margin.top as i128 + border.top as i128 + padding.top as i128,
    );
    Dimensions {
        content: Rect { x, y, width: saturate(w as i128), height: 0 },
        padding,
        border,
        margin,
    }
}

/// The total height of the boxes `boxes`, one below the other.
pub open spec fn stack_height(boxes: Seq<BoxModel>) -> int
    decreases boxes.len(),
{
    if boxes.len() == 0 {
        0
    } else {
        stack_height(boxes.drop_last()) + boxes.last().dimensions.spec_total_height()
    }
}

/// The content height of a box with the properties `values` whose children
/// were laid out as `children`: the height that is set, or else, the height
/// being `auto` or not set, the total height of the children.
pub open spec fn content_height(values: Map<Seq<char>, Seq<char>>, children: Seq<BoxModel>) -> i32 {
    match length_or(values, "height"@, Length::Auto) {
        Length::Auto => clamp_px(stack_height(children)),
        Length::Px(h) => h,
    }
}

/// The box `b` and the boxes below it, laid out in `c` below boxes of the
/// total height `cursor`.
pub open spec fn laid_out(b: BoxModel, c: Container, cursor: int) -> BoxModel
    decreases b,
{
    let frame = framed(b.values(), c, cursor);
    let inner = Container { x: frame.content.x, y: frame.content.y, width: frame.content.width };
    let children = laid_out_all(b.children, inner);
    BoxModel {
        dimensions: Dimensions {
            content: Rect { height: content_height(b.values(), children), ..frame.content },
            ..frame
        },
        box_type: b.box_type,
        children,
    }
}

/// The boxes `boxes`, laid out in `inner` one below the other.
pub open spec fn laid_out_all(boxes: Seq<BoxModel>, inner: Container) -> Seq<BoxModel>
    decreases boxes,
{
    if boxes.len() == 0 {
        Seq::empty()
    } else {
        let front = laid_out_all(boxes.drop_last(), inner);
        front.push(laid_out(boxes.last(), inner, stack_height(front)))
    }
}

proof fn lemma_laid_out_all_len(boxes: Seq<BoxModel>, inner: Container)
    ensures
        laid_out_all(boxes, inner).len() == boxes.len(),
    decreases boxes.len(),
{
    if boxes.len() > 0 {
        lemma_laid_out_all_len(boxes.drop_last(), inner);
    }
}

proof fn lemma_stack_height_bound(boxes: Seq<BoxModel>)
    ensures
        -boxes.len() * 0x4_0000_0000 <= stack_height(boxes) <= boxes.len() * 0x4_0000_0000,
    decreases boxes.len(),
{
    if boxes.len() > 0 {
        lemma_stack_height_bound(boxes.drop_last());
    }
}

/// Lays out `b` and the boxes below it: its widths and its place first, then
/// its children one below the other in its content area, then its height.
fn layout_box<'a>(b: &LayoutBox<'a>, c: Container, cursor: i128) -> (r: LayoutBox<'a>)
    requires
        -cursor_limit() <= cursor <= cursor_limit(),
    ensures
        r@ == laid_out(b@, c, cursor as int),
    decreases b,
{
    let values = match b.box_type {
        BoxType::BlockNode(s) => Some(&s.specified_values),
        BoxType::InlineNode(s) => Some(&s.specified_values),
        BoxType::AnonymousBlock => None,
    };
    assert(values_of(values) == b@.values());
    let outer = frame(values, c, cursor);
    let inner = Container { x: outer.content.x, y: outer.content.y, width: outer.content.width };
    let mut children: Vec<LayoutBox<'a>> = Vec::new();
    let mut offset: i128 = 0;
    let mut i: usize = 0;
    let ghost kids = box_models_of(b.children@);
    proof {
        lemma_box_models_of(b.children@);
        assert(kids.take(0) =~= Seq::<BoxModel>::empty());
    }
    while i < b.children.len()
        invariant
            i <= b.children.len(),
            kids == box_models_of(b.children@),
            kids.len() == b.children.len(),
            forall|k: int| 0 <= k < b.children.len() ==> #[trigger] kids[k] == b.children[k]@,
            box_models_of(children@) == laid_out_all(kids.take(i as int), inner),
            box_models_of(children@).len() == i,
            offset == stack_height(box_models_of(children@)),
        decreases b.children.len() - i,
    {
        let ghost before = children@;
        proof {
            lemma_stack_height_bound(box_models_of(before));
            assert(kids.take(i + 1).drop_last() =~= kids.take(i as int));
            assert(kids.take(i + 1).last() == b.children[i as int]@);
        }
        let child = layout_box(&b.children[i], inner, offset);
        offset = offset + child.dimensions.total_height() as i128;
        children.push(child);
        proof {
            assert(children@.drop_last() =~= before);
            assert(box_models_of(children@) == box_models_of(before).push(child@));
            assert(box_models_of(children@).drop_last() =~= box_models_of(before));
        }
        i = i + 1;
    }
    assert(kids.take(i as int) =~= kids);
    let height = match lookup(values, "height", Length::Auto) {
        Length::Auto => saturate(offset),
        Length::Px(h) => h,
    };
    LayoutBox {
        dimensions: Dimensions {
            content: Rect {
                x: outer.content.x,
                y: outer.content.y,
                width: outer.content.width,
                height,
            },
            padding: outer.padding,
            border: outer.border,
            margin: outer.margin,
        },
        box_type: b.box_type,
        children,
    }
}

/// The place that the content area of `containing_block` gives the boxes
/// that are laid out in it.
pub open spec fn container_of(containing_block: Dimensions) -> Container {
    Container {
        x: containing_block.content.x,
        y: containing_block.content.y,
        width: containing_block.content.width,
    }
}

/// Builds the box tree of a style tree and lays it out in the content area
/// of `containing_block`, from its top on.
pub fn layout_tree<'a>(node: &'a StyledNode<'a>, containing_block: Dimensions) -> (r: LayoutBox<'a>)
    ensures
        r@ == laid_out(box_tree(node@), container_of(containing_block), 0),
        sorted_throughout(r@),
{
    proof {
        lemma_box_tree_sorted_throughout(node@);
        lemma_layout_keeps_sorted(box_tree(node@), container_of(containing_block), 0);
    }
    let root = build_layout_tree(node);
    let c = Container {
        x: containing_block.content.x,
        y: containing_block.content.y,
        width: containing_block.content.width,
    };
    layout_box(&root, c, 0)
}

/// A box whose height is `auto`, or not set, is as high as its children
/// are in total.
pub proof fn lemma_auto_height(b: BoxModel, c: Container, cursor: int)
    requires
        length_or(b.values(), "height"@, Length::Auto) is Auto,
    ensures
        laid_out(b, c, cursor).dimensions.content.height == clamp_px(
            stack_height(laid_out(b, c, cursor).children),
        ),
{
}

/// Where no size of the box saturates, the box takes up the whole width of
/// its container.
pub proof fn lemma_laid_out_fills_container(b: BoxModel, c: Container, cursor: int)
    requires
        i32::MIN <= solve_width(b.values(), c.width as int).width <= i32::MAX,
        i32::MIN <= solve_width(b.values(), c.width as int).margin_left <= i32::MAX,
        i32::MIN <= solve_width(b.values(), c.width as int).margin_right <= i32::MAX,
    ensures
        laid_out(b, c, cursor).dimensions.spec_total_width() == c.width,
{
    lemma_width_fills_container(b.values(), c.width as int);
}

/// The place that a box gives its children: its content area.
pub open spec fn inner_of(b: BoxModel) -> Container {
    Container {
        x: b.dimensions.content.x,
        y: b.dimensions.content.y,
        width: b.dimensions.content.width,
    }
}

proof fn lemma_laid_out_all_index(boxes: Seq<BoxModel>, inner: Container, k: int)
    requires
        0 <= k < boxes.len(),
    ensures
        laid_out_all(boxes, inner).len() == boxes.len(),
        laid_out_all(boxes, inner)[k] == laid_out(
            boxes[k],
            inner,
            stack_height(laid_out_all(boxes, inner).take(k)),
        ),
    decreases boxes.len(),
{
    lemma_laid_out_all_len(boxes, inner);
    lemma_laid_out_all_len(boxes.drop_last(), inner);
    let front = laid_out_all(boxes.drop_last(), inner);
    let all = laid_out_all(boxes, inner);
    if k == boxes.len() - 1 {
        assert(all.take(k) =~= front);
    } else {
        lemma_laid_out_all_index(boxes.drop_last(), inner, k);
        assert(all.take(k) =~= front.take(k));
        assert(all[k] == front[k]);
    }
}

/// Each child is laid out in the content area of its parent, below the
/// children before it: at the height that those take up in total.
pub proof fn lemma_child_layout(b: BoxModel, c: Container, cursor: int, k: int)
    requires
        0 <= k < b.children.len(),
    ensures
        laid_out(b, c, cursor).children.len() == b.children.len(),
        laid_out(b, c, cursor).children[k] == laid_out(
            b.children[k],
            inner_of(laid_out(b, c, cursor)),
            stack_height(laid_out(b, c, cursor).children.take(k)),
        ),
{
    let frame = framed(b.values(), c, cursor);
    let inner = Container { x: frame.content.x, y: frame.content.y, width: frame.content.width };
    lemma_laid_out_all_index(b.children, inner, k);
}

/// Layout gives the boxes their dimensions and changes nothing else: each
/// box keeps its kind and its number of children, and the children of a box
/// stay of one kind.
pub proof fn lemma_layout_keeps_shape(b: BoxModel, c: Container, cursor: int)
    ensures
        laid_out(b, c, cursor).box_type == b.box_type,
        laid_out(b, c, cursor).children.len() == b.children.len(),
        forall|k: int|
            0 <= k < b.children.len() ==> (#[trigger] laid_out(b, c, cursor).children[k]).box_type
                == b.children[k].box_type,
        b.children_sorted() ==> laid_out(b, c, cursor).children_sorted(),
{
    let r = laid_out(b, c, cursor);
    let inner = inner_of(r);
    lemma_laid_out_all_len(b.children, inner);
    assert forall|k: int| 0 <= k < b.children.len() implies (#[trigger] r.children[k]).box_type
        == b.children[k].box_type && r.children[k].children.len() == b.children[k].children.len()
        && (forall|j: int|
        0 <= j < b.children[k].children.len() ==> (#[trigger] r.children[k].children[j]).box_type
            == b.children[k].children[j].box_type) by {
        lemma_child_layout(b, c, cursor, k);
        let child = b.children[k];
        let at = stack_height(r.children.take(k));
        let placed = laid_out(child, inner, at);
        assert(r.children[k] == placed);
        assert(placed.box_type == child.box_type);
        lemma_laid_out_all_len(child.children, inner_of(placed));
        assert(placed.children.len() == child.children.len());
        assert forall|j: int| 0 <= j < child.children.len() implies (
        #[trigger] placed.children[j]).box_type == child.children[j].box_type by {
            lemma_child_layout(child, inner, at, j);
            let below = laid_out(
                child.children[j],
                inner_of(placed),
                stack_height(placed.children.take(j)),
            );
            assert(placed.children[j] == below);
            assert(below.box_type == child.children[j].box_type);
        }
    }
    if b.children_sorted() && b.box_type is BlockNode {
        assert forall|i: int| 0 <= i < r.children.len() implies is_block_or_run(
            #[trigger] r.children[i],
        ) by {
            assert(is_block_or_run(b.children[i]));
        }
        assert forall|i: int, j: int| 0 <= i && j == i + 1 && j < r.children.len() implies !((
        #[trigger] r.children[i]).box_type is AnonymousBlock && (
        #[trigger] r.children[j]).box_type is AnonymousBlock) by {
            assert(!(b.children[i].box_type is AnonymousBlock && b.children[j].box_type is AnonymousBlock));
        }
    }
}

/// Layout keeps the children of every box of the tree of one kind.
pub proof fn lemma_layout_keeps_sorted(b: BoxModel, c: Container, cursor: int)
    requires
        sorted_throughout(b),
    ensures
        sorted_throughout(laid_out(b, c, cursor)),
    decreases b,
{
    let r = laid_out(b, c, cursor);
    lemma_layout_keeps_shape(b, c, cursor);
    assert forall|k: int| 0 <= k < r.children.len() implies sorted_throughout(
        #[trigger] r.children[k],
    ) by {
        lemma_child_layout(b, c, cursor, k);
        assert(sorted_throughout(b.children[k]));
        lemma_layout_keeps_sorted(
            b.children[k],
            inner_of(r),
            stack_height(r.children.take(k)),
        );
    }
}

proof fn lemma_laid_out_all_count(boxes: Seq<BoxModel>, inner: Container)
    ensures
        count_all(laid_out_all(boxes, inner)) == count_all(boxes),
        anonymous_count_all(laid_out_all(boxes, inner)) == anonymous_count_all(boxes),
    decreases boxes,
{
    if boxes.len() > 0 {
        let front = laid_out_all(boxes.drop_last(), inner);
        lemma_laid_out_all_count(boxes.drop_last(), inner);
        lemma_layout_keeps_count(boxes.last(), inner, stack_height(front));
        let last = laid_out(boxes.last(), inner, stack_height(front));
        assert(front.push(last).drop_last() =~= front);
    }
}

/// Layout adds no box and takes none away.
pub proof fn lemma_layout_keeps_count(b: BoxModel, c: Container, cursor: int)
    ensures
        laid_out(b, c, cursor).count() == b.count(),
        laid_out(b, c, cursor).anonymous_count() == b.anonymous_count(),
    decreases b,
{
    lemma_laid_out_all_count(b.children, inner_of(laid_out(b, c, cursor)));
}

} // verus!
