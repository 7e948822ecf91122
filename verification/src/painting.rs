use vstd::prelude::*;
use vstd::string::*;

use crate::boxes::{box_models_of, lemma_box_models_of, BoxModel, BoxType, LayoutBox};
use crate::geometry::{saturate, Rect};
use crate::layout::values_of;
use crate::properties::PropertyMap;
use crate::values::{clamp_px, color_of, parse_color, Color};

verus! {

/// Something to paint: a rectangle filled with one colour.
#[derive(Clone, Copy, Debug, PartialEq, Eq, Structural)]
pub enum DisplayCommand {
    SolidColor(Color, Rect),
}

/// Whether the pixel at column `x` and row `y` lies in `rect`. A rectangle
/// whose width or height is not positive holds no pixel.
pub open spec fn covers(rect: Rect, x: int, y: int) -> bool {
    &&& rect.x <= x < rect.x + rect.width
    &&& rect.y <= y < rect.y + rect.height
}

impl DisplayCommand {
    pub open spec fn color(self) -> Color {
        match self {
            DisplayCommand::SolidColor(color, _) => color,
        }
    }

    pub open spec fn rect(self) -> Rect {
        match self {
            DisplayCommand::SolidColor(_, rect) => rect,
        }
    }
}

/// The colour that `values` gives the property `name`, if it gives one.
pub open spec fn color_or_none(values: Map<Seq<char>, Seq<char>>, name: Seq<char>) -> Option<Color> {
    if values.contains_key(name) {
        color_of(values[name])
    } else {
        None
    }
}

/// The background of a box: its border box in its `background-color`, or
/// nothing where it has no such colour.
pub open spec fn background_of(b: BoxModel) -> Seq<DisplayCommand> {
    match color_or_none(b.values(), "background-color"@) {
        Some(color) => seq![DisplayCommand::SolidColor(color, b.dimensions.spec_border_box())],
        None => Seq::empty(),
    }
}

/// The left side of the border of a box: the left edge of its border box.
pub open spec fn left_border(b: BoxModel) -> Rect {
    let d = b.dimensions;
    let bb = d.spec_border_box();
    Rect { x: bb.x, y: bb.y, width: d.border.left, height: bb.height }
}

/// The right side of the border of a box.
pub open spec fn right_border(b: BoxModel) -> Rect {
    let d = b.dimensions;
    let bb = d.spec_border_box();
    Rect {
        x: clamp_px(bb.x + bb.width - d.border.right),
        y: bb.y,
        width: d.border.right,
        height: bb.height,
    }
}

/// The top side of the border of a box.
pub open spec fn top_border(b: BoxModel) -> Rect {
    let d = b.dimensions;
    let bb = d.spec_border_box();
    Rect { x: bb.x, y: bb.y, width: bb.width, height: d.border.top }
}

/// The bottom side of the border of a box.
pub open spec fn bottom_border(b: BoxModel) -> Rect {
    let d = b.dimensions;
    let bb = d.spec_border_box();
    Rect {
        x: bb.x,
        y: clamp_px(bb.y + bb.height - d.border.bottom),
        width: bb.width,
        height: d.border.bottom,
    }
}

/// One side of a border: the rectangle in the colour, or nothing where the
/// side has no width.
pub open spec fn border_side(color: Color, side: Rect, width: i32) -> Seq<DisplayCommand> {
    if width != 0 {
        seq![DisplayCommand::SolidColor(color, side)]
    } else {
        Seq::empty()
    }
}

/// The borders of a box in its `border-color`: left, right, top, bottom,
/// those that have a width. Nothing where the box has no such colour.
pub open spec fn borders_of(b: BoxModel) -> Seq<DisplayCommand> {
    match color_or_none(b.values(), "border-color"@) {
        Some(color) => border_side(color, left_border(b), b.dimensions.border.left) + border_side(
            color,
            right_border(b),
            b.dimensions.border.right,
        ) + border_side(color, top_border(b), b.dimensions.border.top) + border_side(
            color,
            bottom_border(b),
            b.dimensions.border.bottom,
        ),
        None => Seq::empty(),
    }
}

/// What a box paints of its own: its background, then its borders.
pub open spec fn own_commands(b: BoxModel) -> Seq<DisplayCommand> {
    background_of(b) + borders_of(b)
}

/// What a box tree paints, in the order in which it is painted: each box
/// before the boxes below it, and the children of a box one after another.
pub open spec fn display_list(b: BoxModel) -> Seq<DisplayCommand>
    decreases b,
{
    own_commands(b) + display_lists(b.children)
}

/// What the box trees of `boxes` paint, one tree after another.
pub open spec fn display_lists(boxes: Seq<BoxModel>) -> Seq<DisplayCommand>
    decreases boxes,
{
    if boxes.len() == 0 {
        Seq::empty()
    } else {
        display_lists(boxes.drop_last()) + display_list(boxes.last())
    }
}

fn color_property(values: Option<&PropertyMap>, name: &str) -> (r: Option<Color>)
    ensures
        r == color_or_none(values_of(values), name@),
{
    let found = match values {
        Some(m) => m.get(name),
        None => None,
    };
    match found {
        Some(v) => parse_color(v.as_str()),
        None => None,
    }
}

fn render_layout_box<'a>(list: &mut Vec<DisplayCommand>, b: &LayoutBox<'a>)
    ensures
        final(list)@ == old(list)@ + display_list(b@),
    decreases b,
{
    let ghost start = list@;
    let values = match b.box_type {
        BoxType::BlockNode(s) => Some(&s.specified_values),
        BoxType::InlineNode(s) => Some(&s.specified_values),
        BoxType::AnonymousBlock => None,
    };
    assert(values_of(values) == b@.values());
    let d = b.dimensions;
    let bb = d.border_box();
    match color_property(values, "background-color") {
        Some(color) => {
            list.push(DisplayCommand::SolidColor(color, bb));
        },
        None => {},
    }
    assert(list@ =~= start + background_of(b@));
    match color_property(values, "border-color") {
        Some(color) => {
            if d.border.left != 0 {
                list.push(
                    DisplayCommand::SolidColor(
                        color,
                        Rect { x: bb.x, y: bb.y, width: d.border.left, height: bb.height },
                    ),
                );
            }
            if d.border.right != 0 {
                list.push(
                    DisplayCommand::SolidColor(
                        color,
                        Rect {
                            x: saturate(bb.x as i128 + bb.width as i128 - d.border.right as i128),
                            y: bb.y,
                            width: d.border.right,
                            height: bb.height,
                        },
                    ),
                );
            }
            if d.border.top != 0 {
                list.push(
                    DisplayCommand::SolidColor(
                        color,
                        Rect { x: bb.x, y: bb.y, width: bb.width, height: d.border.top },
                    ),
                );
            }
            if d.border.bottom != 0 {
                list.push(
                    DisplayCommand::SolidColor(
                        color,
                        Rect {
                            x: bb.x,
                            y: saturate(bb.y as i128 + bb.height as i128 - d.border.bottom as i128),
                            width: bb.width,
                            height: d.border.bottom,
                        },
                    ),
                );
            }
        },
        None => {},
    }
    assert(list@ =~= start + own_commands(b@));
    let ghost kids = box_models_of(b.children@);
    proof {
        lemma_box_models_of(b.children@);
        assert(kids.take(0) =~= Seq::<BoxModel>::empty());
    }
    let mut i: usize = 0;
    while i < b.children.len()
        invariant
            i <= b.children.len(),
            kids == box_models_of(b.children@),
            kids.len() == b.children.len(),
            forall|k: int| 0 <= k < b.children.len() ==> #[trigger] kids[k] == b.children[k]@,
            list@ == start + own_commands(b@) + display_lists(kids.take(i as int)),
        decreases b.children.len() - i,
    {
        let ghost before = list@;
        render_layout_box(list, &b.children[i]);
        proof {
            assert(kids.take(i + 1).drop_last() =~= kids.take(i as int));
            assert(kids.take(i + 1).last() == b.children[i as int]@);
            assert(list@ =~= start + own_commands(b@) + display_lists(kids.take(i + 1)));
        }
        i = i + 1;
    }
    assert(kids.take(i as int) =~= kids);
    assert(list@ =~= start + display_list(b@));
}

/// Lists what the box tree paints, in the order in which it is painted.
pub fn build_display_list<'a>(layout_root: &LayoutBox<'a>) -> (list: Vec<DisplayCommand>)
    ensures
        list@ == display_list(layout_root@),
{
    let mut list: Vec<DisplayCommand> = Vec::new();
    render_layout_box(&mut list, layout_root);
    assert(list@ =~= display_list(layout_root@));
    list
}

} // verus!
