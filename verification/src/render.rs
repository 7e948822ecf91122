use vstd::prelude::*;

use crate::boxes::{box_tree, lemma_box_count};
use crate::canvas::{paint, rendered, side, Canvas, fits};
use crate::css::Stylesheet;
use crate::dom::Node;
use crate::geometry::Dimensions;
use crate::layout::{container_of, laid_out, layout_tree, lemma_layout_keeps_count};
use crate::painting::{display_list, DisplayCommand};
use crate::style::{lemma_styled_size, style_tree, styled, visible_count};

verus! {

/// What the document `root` paints under `sheet` in `viewport`: the display
/// list of its box tree, laid out in the content area of `viewport`. A
/// document whose root is hidden paints nothing.
pub open spec fn scene(root: Node, sheet: Stylesheet, viewport: Dimensions) -> Seq<DisplayCommand> {
    match styled(root, sheet) {
        Some(s) => display_list(laid_out(box_tree(s), container_of(viewport), 0)),
        None => Seq::empty(),
    }
}

/// Renders a document: resolves its style, lays out its boxes in the content
/// area of `viewport`, and paints them on a canvas of the size of that area.
pub fn render(root: &Node, sheet: &Stylesheet, viewport: Dimensions) -> (canvas: Canvas)
    requires
        fits(viewport.content),
    ensures
        canvas.spec_width() == side(viewport.content.width),
        canvas.spec_height() == side(viewport.content.height),
        canvas@ == rendered(
            scene(*root, *sheet, viewport),
            side(viewport.content.width),
            side(viewport.content.height),
        ),
{
    match style_tree(root, sheet) {
        Some(style_root) => {
            let layout_root = layout_tree(&style_root, viewport);
            paint(&layout_root, viewport.content)
        },
        None => {
            let width: usize = if viewport.content.width < 0 {
                0
            } else {
                viewport.content.width as usize
            };
            let height: usize = if viewport.content.height < 0 {
                0
            } else {
                viewport.content.height as usize
            };
            Canvas::new(width, height)
        },
    }
}

/// The box tree of a document has one box for each node that is neither
/// hidden nor below a hidden node, and the anonymous boxes besides.
pub proof fn lemma_boxes_of_document(root: Node, sheet: Stylesheet, viewport: Dimensions)
    requires
        styled(root, sheet) is Some,
    ensures
        ({
            let boxes = laid_out(
                box_tree(styled(root, sheet).unwrap()),
                container_of(viewport),
                0,
            );
            boxes.count() == visible_count(root, sheet) + boxes.anonymous_count()
        }),
{
    let s = styled(root, sheet).unwrap();
    lemma_styled_size(root, sheet);
    lemma_box_count(s);
    lemma_layout_keeps_count(box_tree(s), container_of(viewport), 0);
}

} // verus!
