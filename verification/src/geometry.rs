use vstd::prelude::*;

use crate::values::clamp_px;

verus! {

/// A rectangle, in whole pixels. `x` grows to the right and `y` downwards.
#[derive(Clone, Copy, Debug, PartialEq, Eq, Structural)]
pub struct Rect {
    pub x: i32,
    pub y: i32,
    pub width: i32,
    pub height: i32,
}

/// The widths of the four sides of a padding, border or margin area.
#[derive(Clone, Copy, Debug, PartialEq, Eq, Structural)]
pub struct EdgeSizes {
    pub left: i32,
    pub right: i32,
    pub top: i32,
    pub bottom: i32,
}

/// The geometry of a box: its content area and the areas around it.
#[derive(Clone, Copy, Debug, PartialEq, Eq, Structural)]
pub struct Dimensions {
    pub content: Rect,
    pub padding: EdgeSizes,
    pub border: EdgeSizes,
    pub margin: EdgeSizes,
}

/// The `i32` nearest to `v`.
pub fn saturate(v: i128) -> (r: i32)
    ensures
        r == clamp_px(v as int),
{
    if v < i32::MIN as i128 {
        i32::MIN
    } else if v > i32::MAX as i128 {
        i32::MAX
    } else {
        v as i32
    }
}

impl Rect {
    pub open spec fn spec_zero() -> Rect {
        Rect { x: 0, y: 0, width: 0, height: 0 }
    }

    #[verifier::when_used_as_spec(spec_zero)]
    pub fn zero() -> (r: Rect)
        ensures
            r == Rect::spec_zero(),
    {
        Rect { x: 0, y: 0, width: 0, height: 0 }
    }

    /// The rectangle that lies around `self` at the distances `edge`. Each of
    /// its fields saturates at the `i32` bounds.
    pub open spec fn spec_expanded_by(self, edge: EdgeSizes) -> Rect {
        Rect {
            x: clamp_px(self.x - edge.left),
            y: clamp_px(self.y - edge.top),
            width: clamp_px(self.width + edge.left + edge.right),
            height: clamp_px(self.height + edge.top + edge.bottom),
        }
    }

    #[verifier::when_used_as_spec(spec_expanded_by)]
    pub fn expanded_by(self, edge: EdgeSizes) -> (r: Rect)
        ensures
            r == self.spec_expanded_by(edge),
    {
        Rect {
            x: saturate(self.x as i128 - edge.left as i128),
            y: saturate(self.y as i128 - edge.top as i128),
            width: saturate(self.width as i128 + edge.left as i128 + edge.right as i128),
            height: saturate(self.height as i128 + edge.top as i128 + edge.bottom as i128),
        }
    }
}

impl EdgeSizes {
    pub open spec fn spec_zero() -> EdgeSizes {
        EdgeSizes { left: 0, right: 0, top: 0, bottom: 0 }
    }

    #[verifier::when_used_as_spec(spec_zero)]
    pub fn zero() -> (r: EdgeSizes)
        ensures
            r == EdgeSizes::spec_zero(),
    {
        EdgeSizes { left: 0, right: 0, top: 0, bottom: 0 }
    }
}

impl Dimensions {
    pub open spec fn spec_zero() -> Dimensions {
        Dimensions {
            content: Rect::spec_zero(),
            padding: EdgeSizes::spec_zero(),
            border: EdgeSizes::spec_zero(),
            margin: EdgeSizes::spec_zero(),
        }
    }

    #[verifier::when_used_as_spec(spec_zero)]
    pub fn zero() -> (r: Dimensions)
        ensures
            r == Dimensions::spec_zero(),
    {
        Dimensions {
            content: Rect::zero(),
            padding: EdgeSizes::zero(),
            border: EdgeSizes::zero(),
            margin: EdgeSizes::zero(),
        }
    }

    /// The content area and the padding around it.
    pub open spec fn spec_padding_box(self) -> Rect {
        self.content.spec_expanded_by(self.padding)
    }

    #[verifier::when_used_as_spec(spec_padding_box)]
    pub fn padding_box(self) -> (r: Rect)
        ensures
            r == self.spec_padding_box(),
    {
        self.content.expanded_by(self.padding)
    }

    /// The padding box and the border around it.
    pub open spec fn spec_border_box(self) -> Rect {
        self.spec_padding_box().spec_expanded_by(self.border)
    }

    #[verifier::when_used_as_spec(spec_border_box)]
    pub fn border_box(self) -> (r: Rect)
        ensures
            r == self.spec_border_box(),
    {
        self.padding_box().expanded_by(self.border)
    }

    /// The border box and the margin around it.
    pub open spec fn spec_margin_box(self) -> Rect {
        self.spec_border_box().spec_expanded_by(self.margin)
    }

    #[verifier::when_used_as_spec(spec_margin_box)]
    pub fn margin_box(self) -> (r: Rect)
        ensures
            r == self.spec_margin_box(),
    {
        self.border_box().expanded_by(self.margin)
    }

    /// The height that the box takes up in its container: content, padding,
    /// border and margin, as an exact sum.
    pub open spec fn spec_total_height(self) -> int {
        self.content.height + self.padding.top + self.padding.bottom + self.border.top
            + self.border.bottom + self.margin.top + self.margin.bottom
    }

    pub fn total_height(self) -> (h: i64)
        ensures
            h == self.spec_total_height(),
    {
        self.content.height as i64 + self.padding.top as i64 + self.padding.bottom as i64
            + self.border.top as i64 + self.border.bottom as i64 + self.margin.top as i64
            + self.margin.bottom as i64
    }

    /// The width that the box takes up in its container, as an exact sum.
    pub open spec fn spec_total_width(self) -> int {
        self.content.width + self.padding.left + self.padding.right + self.border.left
            + self.border.right + self.margin.left + self.margin.right
    }

    pub fn total_width(self) -> (w: i64)
        ensures
            w == self.spec_total_width(),
    {
        self.content.width as i64 + self.padding.left as i64 + self.padding.right as i64
            + self.border.left as i64 + self.border.right as i64 + self.margin.left as i64
            + self.margin.right as i64
    }
}

impl Default for Rect {
    fn default() -> (r: Rect)
        ensures
            r == Rect::spec_zero(),
    {
        Rect::zero()
    }
}

impl Default for EdgeSizes {
    fn default() -> (r: EdgeSizes)
        ensures
            r == EdgeSizes::spec_zero(),
    {
        EdgeSizes::zero()
    }
}

impl Default for Dimensions {
    fn default() -> (r: Dimensions)
        ensures
            r == Dimensions::spec_zero(),
    {
        Dimensions::zero()
    }
}

} // verus!
