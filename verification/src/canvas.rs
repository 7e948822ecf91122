use vstd::prelude::*;

use vstd::arithmetic::div_mod::{
    lemma_div_pos_is_pos, lemma_fundamental_div_mod, lemma_fundamental_div_mod_converse,
    lemma_mod_bound,
};

use crate::boxes::{BoxModel, LayoutBox};
use crate::geometry::Rect;
use crate::painting::{
    background_of, build_display_list, color_or_none, covers, display_list, display_lists,
    own_commands, DisplayCommand,
};
use crate::values::Color;

verus! {

/// A grid of pixels, `width` to a row, row after row from the top.
#[derive(Debug)]
pub struct Canvas {
    width: usize,
    height: usize,
    pixels: Vec<Color>,
}

/// The pixels `pixels` of a canvas of the width `width`, after `item` was
/// painted on them: the pixels that its rectangle covers have its colour, and
/// the others are as they were.
pub open spec fn painted_over(pixels: Seq<Color>, width: int, item: DisplayCommand) -> Seq<Color> {
    Seq::new(
        pixels.len(),
        |i: int|
            if covers(item.rect(), i % width, i / width) {
                item.color()
            } else {
                pixels[i]
            },
    )
}

/// The colour of the pixel at column `x` and row `y` after `commands` were
/// painted one after another on white: that of the last command that covers
/// the pixel, or white where none does.
pub open spec fn top_color(commands: Seq<DisplayCommand>, x: int, y: int) -> Color
    decreases commands.len(),
{
    if commands.len() == 0 {
        Color::spec_white()
    } else if covers(commands.last().rect(), x, y) {
        commands.last().color()
    } else {
        top_color(commands.drop_last(), x, y)
    }
}

/// The pixels of a canvas of `width` by `height` pixels on which `commands`
/// were painted.
pub open spec fn rendered(commands: Seq<DisplayCommand>, width: nat, height: nat) -> Seq<Color> {
    Seq::new(width * height, |i: int| top_color(commands, i % (width as int), i / (width as int)))
}

/// The number of pixels that a length gives a side of the canvas: none where
/// the length is negative.
pub open spec fn side(length: i32) -> nat {
    if length < 0 {
        0
    } else {
        length as nat
    }
}

/// Whether the pixel with the index `i` comes before the pixel at column `x`
/// of row `y`, on a canvas of the width `w`.
spec fn done(i: int, w: int, x: int, y: int) -> bool {
    i / w < y || (i / w == y && i % w < x)
}

proof fn lemma_cell(i: int, w: int, h: int)
    requires
        0 < w,
        0 <= i < w * h,
    ensures
        0 <= i % w < w,
        0 <= i / w < h,
        i == (i / w) * w + i % w,
{
    lemma_mod_bound(i, w);
    lemma_div_pos_is_pos(i, w);
    lemma_fundamental_div_mod(i, w);
    let q = i / w;
    let r = i % w;
    assert(i == w * q + r);
    assert(q < h) by (nonlinear_arith)
        requires
            i == w * q + r,
            0 <= r,
            i < w * h,
            0 < w,
    ;
    assert(w * q == q * w) by (nonlinear_arith);
}

proof fn lemma_index(x: int, y: int, w: int, h: int)
    requires
        0 <= x < w,
        0 <= y < h,
    ensures
        0 <= y * w + x < w * h,
        (y * w + x) / w == y,
        (y * w + x) % w == x,
{
    assert(0 <= y * w + x < w * h) by (nonlinear_arith)
        requires
            0 <= x < w,
            0 <= y < h,
    ;
    lemma_fundamental_div_mod_converse(y * w + x, w, y, x);
}

/// The number nearest to `v` among `0..=limit`.
fn clip(v: i64, limit: usize) -> (r: usize)
    ensures
        r == (if v < 0 {
            0
        } else if v > limit {
            limit as int
        } else {
            v as int
        }),
{
    if v < 0 {
        0
    } else if v as u128 > limit as u128 {
        limit
    } else {
        v as usize
    }
}

impl Canvas {
    #[verifier::type_invariant]
    spec fn sized(&self) -> bool {
        self.pixels.len() == self.width * self.height
    }

    pub closed spec fn spec_width(&self) -> nat {
        self.width as nat
    }

    pub closed spec fn spec_height(&self) -> nat {
        self.height as nat
    }

    /// The pixels, row after row.
    pub closed spec fn view(&self) -> Seq<Color> {
        self.pixels@
    }

    pub fn width(&self) -> (w: usize)
        ensures
            w == self.spec_width(),
    {
        self.width
    }

    pub fn height(&self) -> (h: usize)
        ensures
            h == self.spec_height(),
    {
        self.height
    }

    pub fn pixels(&self) -> (p: &Vec<Color>)
        ensures
            p@ == self@,
            p@.len() == self.spec_width() * self.spec_height(),
    {
        proof {
            use_type_invariant(self);
        }
        &self.pixels
    }

    /// The pixel at column `x` of row `y`.
    pub fn pixel(&self, x: usize, y: usize) -> (c: Color)
        requires
            x < self.spec_width(),
            y < self.spec_height(),
        ensures
            y * self.spec_width() + x < self@.len(),
            c == self@[y * self.spec_width() + x],
    {
        proof {
            use_type_invariant(self);
            lemma_index(x as int, y as int, self.width as int, self.height as int);
        }
        self.pixels[y * self.width + x]
    }

    /// A white canvas of `width` by `height` pixels.
    pub fn new(width: usize, height: usize) -> (c: Canvas)
        requires
            width * height <= usize::MAX,
        ensures
            c.spec_width() == width,
            c.spec_height() == height,
            c@ == rendered(Seq::empty(), width as nat, height as nat),
    {
        let n: usize = width * height;
        let mut pixels: Vec<Color> = Vec::new();
        let mut i: usize = 0;
        while i < n
            invariant
                i <= n,
                pixels.len() == i,
                forall|k: int| 0 <= k < i ==> pixels@[k] == Color::spec_white(),
            decreases n - i,
        {
            pixels.push(Color::white());
            i = i + 1;
        }
        let c = Canvas { width, height, pixels };
        assert(c@ =~= rendered(Seq::empty(), width as nat, height as nat));
        c
    }

    /// Paints `item`: each pixel of the canvas that its rectangle covers
    /// gets its colour. What of the rectangle lies outside the canvas is
    /// left out.
    pub fn paint_item(&mut self, item: &DisplayCommand)
        ensures
            final(self).spec_width() == old(self).spec_width(),
            final(self).spec_height() == old(self).spec_height(),
            final(self)@.len() == old(self)@.len(),
            final(self)@ == painted_over(old(self)@, old(self).spec_width() as int, *item),
    {
        proof {
            use_type_invariant(&*self);
        }
        let (color, rect) = match *item {
            DisplayCommand::SolidColor(color, rect) => (color, rect),
        };
        let mut taken = Canvas { width: 0, height: 0, pixels: Vec::new() };
        core::mem::swap(self, &mut taken);
        let Canvas { width: w, height: h, pixels: mut pixels } = taken;
        let ghost start = pixels@;
        let x0 = clip(rect.x as i64, w);
        let x1 = clip(rect.x as i64 + rect.width as i64, w);
        let y0 = clip(rect.y as i64, h);
        let y1 = clip(rect.y as i64 + rect.height as i64, h);
        assert forall|px: int, py: int| 0 <= px < w && 0 <= py < h implies (#[trigger] covers(
            rect,
            px,
            py,
        ) <==> x0 <= px < x1 && y0 <= py < y1) by {}
        if x0 >= x1 || y0 >= y1 {
            assert forall|i: int| 0 <= i < start.len() implies #[trigger] painted_over(
                start,
                w as int,
                *item,
            )[i] == start[i] by {
                if w > 0 {
                    lemma_cell(i, w as int, h as int);
                }
            }
            assert(pixels@ =~= painted_over(start, w as int, *item));
        } else {
            let mut y: usize = y0;
            while y < y1
                invariant
                    y0 <= y <= y1 <= h,
                    x0 < x1 <= w,
                    pixels.len() == w * h,
                    start.len() == w * h,
                    forall|px: int, py: int|
                        0 <= px < w && 0 <= py < h ==> (#[trigger] covers(rect, px, py) <==> x0
                            <= px < x1 && y0 <= py < y1),
                    forall|i: int|
                        0 <= i < w * h ==> #[trigger] pixels@[i] == (if covers(
                            rect,
                            i % (w as int),
                            i / (w as int),
                        ) && done(i, w as int, x0 as int, y as int) {
                            color
                        } else {
                            start[i]
                        }),
                decreases y1 - y,
            {
                let mut x: usize = x0;
                while x < x1
                    invariant
                        y0 <= y < y1 <= h,
                        x0 <= x <= x1 <= w,
                        x0 < x1,
                        pixels.len() == w * h,
                        start.len() == w * h,
                        forall|px: int, py: int|
                            0 <= px < w && 0 <= py < h ==> (#[trigger] covers(rect, px, py) <==> x0
                                <= px < x1 && y0 <= py < y1),
                        forall|i: int|
                            0 <= i < w * h ==> #[trigger] pixels@[i] == (if covers(
                                rect,
                                i % (w as int),
                                i / (w as int),
                            ) && done(i, w as int, x as int, y as int) {
                                color
                            } else {
                                start[i]
                            }),
                    decreases x1 - x,
                {
                    proof {
                        lemma_index(x as int, y as int, w as int, h as int);
                    }
                    let ghost row = pixels@;
                    let idx: usize = y * w + x;
                    pixels.set(idx, color);
                    assert forall|i: int| 0 <= i < w * h implies #[trigger] pixels@[i] == (if covers(
                        rect,
                        i % (w as int),
                        i / (w as int),
                    ) && done(i, w as int, x + 1, y as int) {
                        color
                    } else {
                        start[i]
                    }) by {
                        lemma_cell(i, w as int, h as int);
                        if i != idx {
                            assert(pixels@[i] == row[i]);
                        }
                    }
                    x = x + 1;
                }
                assert forall|i: int| 0 <= i < w * h implies #[trigger] pixels@[i] == (if covers(
                    rect,
                    i % (w as int),
                    i / (w as int),
                ) && done(i, w as int, x0 as int, y + 1) {
                    color
                } else {
                    start[i]
                }) by {
                    lemma_cell(i, w as int, h as int);
                }
                y = y + 1;
            }
            assert forall|i: int| 0 <= i < w * h implies #[trigger] pixels@[i] == painted_over(
                start,
                w as int,
                *item,
            )[i] by {
                lemma_cell(i, w as int, h as int);
            }
            assert(pixels@ =~= painted_over(start, w as int, *item));
        }
        *self = Canvas { width: w, height: h, pixels };
    }
}

/// Painting one more command changes the pixels that it covers, and no
/// others.
proof fn lemma_rendered_step(commands: Seq<DisplayCommand>, item: DisplayCommand, w: nat, h: nat)
    ensures
        painted_over(rendered(commands, w, h), w as int, item) == rendered(commands.push(item), w, h),
{
    assert(commands.push(item).drop_last() =~= commands);
    assert(painted_over(rendered(commands, w, h), w as int, item) =~= rendered(
        commands.push(item),
        w,
        h,
    ));
}

/// Whether a canvas of the size of `bounds` can be held.
pub open spec fn fits(bounds: Rect) -> bool {
    side(bounds.width) * side(bounds.height) <= usize::MAX
}

/// Tells whether a canvas of the size of `bounds` can be held.
pub fn canvas_fits(bounds: Rect) -> (r: bool)
    ensures
        r == fits(bounds),
{
    let w: u64 = if bounds.width < 0 { 0 } else { bounds.width as u64 };
    let h: u64 = if bounds.height < 0 { 0 } else { bounds.height as u64 };
    assert(w * h <= 0x4000_0000_0000_0000) by (nonlinear_arith)
        requires
            w <= 0x8000_0000,
            h <= 0x8000_0000,
    ;
    let n: u64 = w * h;
    n as u128 <= usize::MAX as u128
}

/// Paints the box tree on a white canvas of the size of `bounds`, each
/// command of the display list over those before it. A side of `bounds`
/// that is negative gives the canvas no pixels.
pub fn paint<'a>(layout_root: &LayoutBox<'a>, bounds: Rect) -> (canvas: Canvas)
    requires
        fits(bounds),
    ensures
        painted(canvas, layout_root@, bounds),
{
    let list = build_display_list(layout_root);
    let width: usize = if bounds.width < 0 { 0 } else { bounds.width as usize };
    let height: usize = if bounds.height < 0 { 0 } else { bounds.height as usize };
    let mut canvas = Canvas::new(width, height);
    let mut k: usize = 0;
    assert(list@.take(0) =~= Seq::<DisplayCommand>::empty());
    while k < list.len()
        invariant
            k <= list.len(),
            canvas.spec_width() == width,
            canvas.spec_height() == height,
            canvas@ == rendered(list@.take(k as int), width as nat, height as nat),
        decreases list.len() - k,
    {
        canvas.paint_item(&list[k]);
        proof {
            lemma_rendered_step(list@.take(k as int), list[k as int], width as nat, height as nat);
            assert(list@.take(k + 1) =~= list@.take(k as int).push(list[k as int]));
        }
        k = k + 1;
    }
    assert(list@.take(k as int) =~= list@);
    canvas
}

/// Whether one of `commands` covers the pixel at column `x` and row `y`.
pub open spec fn any_covers(commands: Seq<DisplayCommand>, x: int, y: int) -> bool {
    exists|k: int| 0 <= k < commands.len() && covers((#[trigger] commands[k]).rect(), x, y)
}

/// Of two lists of commands painted one after the other, the later one
/// shows wherever it covers a pixel, and the earlier one only elsewhere.
pub proof fn lemma_later_paints_over(
    earlier: Seq<DisplayCommand>,
    later: Seq<DisplayCommand>,
    x: int,
    y: int,
)
    ensures
        top_color(earlier + later, x, y) == (if any_covers(later, x, y) {
            top_color(later, x, y)
        } else {
            top_color(earlier, x, y)
        }),
    decreases later.len(),
{
    if later.len() == 0 {
        assert(earlier + later =~= earlier);
    } else {
        let all = earlier + later;
        assert(all.drop_last() =~= earlier + later.drop_last());
        assert(all.last() == later.last());
        lemma_later_paints_over(earlier, later.drop_last(), x, y);
        if covers(later.last().rect(), x, y) {
            assert(covers(later[later.len() - 1].rect(), x, y));
        } else if any_covers(later, x, y) {
            let k = choose|k: int| 0 <= k < later.len() && covers((#[trigger] later[k]).rect(), x, y);
            assert(covers(later.drop_last()[k].rect(), x, y));
        } else if any_covers(later.drop_last(), x, y) {
            let k = choose|k: int|
                0 <= k < later.drop_last().len() && covers(
                    (#[trigger] later.drop_last()[k]).rect(),
                    x,
                    y,
                );
            assert(covers(later[k].rect(), x, y));
        }
    }
}

proof fn lemma_any_covers_concat(a: Seq<DisplayCommand>, b: Seq<DisplayCommand>, x: int, y: int)
    ensures
        any_covers(a + b, x, y) <==> any_covers(a, x, y) || any_covers(b, x, y),
{
    let all = a + b;
    if any_covers(all, x, y) {
        let k = choose|k: int| 0 <= k < all.len() && covers((#[trigger] all[k]).rect(), x, y);
        if k < a.len() {
            assert(covers(a[k].rect(), x, y));
        } else {
            assert(covers(b[k - a.len()].rect(), x, y));
        }
    }
    if any_covers(a, x, y) {
        let k = choose|k: int| 0 <= k < a.len() && covers((#[trigger] a[k]).rect(), x, y);
        assert(covers(all[k].rect(), x, y));
    }
    if any_covers(b, x, y) {
        let k = choose|k: int| 0 <= k < b.len() && covers((#[trigger] b[k]).rect(), x, y);
        assert(covers(all[k + a.len()].rect(), x, y));
    }
}

proof fn lemma_child_commands_listed(boxes: Seq<BoxModel>, k: int, x: int, y: int)
    requires
        0 <= k < boxes.len(),
        any_covers(display_list(boxes[k]), x, y),
    ensures
        any_covers(display_lists(boxes), x, y),
    decreases boxes.len(),
{
    lemma_any_covers_concat(display_lists(boxes.drop_last()), display_list(boxes.last()), x, y);
    if k < boxes.len() - 1 {
        lemma_child_commands_listed(boxes.drop_last(), k, x, y);
    }
}

/// The boxes below a box are painted over it: wherever one of them paints,
/// nothing that the box paints of its own shows.
pub proof fn lemma_descendants_paint_over(b: BoxModel, x: int, y: int)
    ensures
        top_color(display_list(b), x, y) == (if any_covers(display_lists(b.children), x, y) {
            top_color(display_lists(b.children), x, y)
        } else {
            top_color(own_commands(b), x, y)
        }),
{
    lemma_later_paints_over(own_commands(b), display_lists(b.children), x, y);
}

/// The background of a child is painted over its parent: a pixel in the
/// border box of a child that has a background colour shows nothing that the
/// parent paints of its own.
pub proof fn lemma_child_background_paints_over(b: BoxModel, k: int, x: int, y: int)
    requires
        0 <= k < b.children.len(),
        color_or_none(b.children[k].values(), "background-color"@) is Some,
        covers(b.children[k].dimensions.spec_border_box(), x, y),
    ensures
        top_color(display_list(b), x, y) == top_color(display_lists(b.children), x, y),
{
    let child = b.children[k];
    let own = own_commands(child);
    assert(covers(background_of(child)[0].rect(), x, y));
    assert(own[0] == background_of(child)[0]);
    assert(any_covers(own, x, y));
    lemma_any_covers_concat(own, display_lists(child.children), x, y);
    lemma_child_commands_listed(b.children, k, x, y);
    lemma_descendants_paint_over(b, x, y);
}

/// Whether `canvas` is what painting the box tree `root` in `bounds` gives.
pub open spec fn painted(canvas: Canvas, root: BoxModel, bounds: Rect) -> bool {
    &&& canvas.spec_width() == side(bounds.width)
    &&& canvas.spec_height() == side(bounds.height)
    &&& canvas@ == rendered(display_list(root), side(bounds.width), side(bounds.height))
}

/// Painting the same box tree in the same bounds again gives the same
/// canvas, pixel for pixel.
pub proof fn lemma_paint_repeatable(first: Canvas, second: Canvas, root: BoxModel, bounds: Rect)
    requires
        painted(first, root, bounds),
        painted(second, root, bounds),
    ensures
        first.spec_width() == second.spec_width(),
        first.spec_height() == second.spec_height(),
        first@ == second@,
{
}

} // verus!
