use jerry::canvas::{canvas_fits, paint, Canvas};
use jerry::dom::{text, Node};
use jerry::geometry::{Dimensions, Rect};
use jerry::layout::layout_tree;
use jerry::painting::{build_display_list, DisplayCommand};
use jerry::properties::PropertyMap;
use jerry::style::StyledNode;
use jerry::values::Color;

const RED: Color = Color { r: 255, g: 0, b: 0, a: 255 };
const GREEN: Color = Color { r: 0, g: 255, b: 0, a: 255 };
const BLUE: Color = Color { r: 0, g: 0, b: 255, a: 255 };

fn properties(declarations: &[(&str, &str)]) -> PropertyMap {
    let mut m = PropertyMap::new();
    for (name, value) in declarations {
        m.insert(name.to_string(), value.to_string());
    }
    m
}

fn styled<'a>(node: &'a Node, declarations: &[(&str, &str)], children: Vec<StyledNode<'a>>) -> StyledNode<'a> {
    StyledNode { node, specified_values: properties(declarations), children }
}

fn viewport(width: i32, height: i32) -> Dimensions {
    let mut d = Dimensions::zero();
    d.content.width = width;
    d.content.height = height;
    d
}

fn rect(x: i32, y: i32, width: i32, height: i32) -> Rect {
    Rect { x, y, width, height }
}

fn count(canvas: &Canvas, color: Color) -> usize {
    canvas.pixels().iter().filter(|p| **p == color).count()
}

#[test]
fn new_canvas_is_white() {
    let c = Canvas::new(4, 3);
    assert_eq!(c.width(), 4);
    assert_eq!(c.height(), 3);
    assert_eq!(c.pixels().len(), 12);
    assert!(c.pixels().iter().all(|p| *p == Color::white()));
    assert_eq!(Color::white(), Color { r: 255, g: 255, b: 255, a: 255 });
    let empty = Canvas::new(0, 9);
    assert_eq!(empty.pixels().len(), 0);
}

#[test]
fn rectangle_is_painted_row_by_row() {
    let mut c = Canvas::new(4, 3);
    c.paint_item(&DisplayCommand::SolidColor(RED, rect(1, 1, 2, 1)));
    let w = Color::white();
    assert_eq!(c.pixels(), &vec![w, w, w, w, w, RED, RED, w, w, w, w, w]);
    assert_eq!(c.pixel(1, 1), RED);
    assert_eq!(c.pixel(0, 1), w);
    assert_eq!(c.pixel(3, 2), w);
}

#[test]
fn later_command_paints_over_earlier() {
    let mut c = Canvas::new(3, 1);
    c.paint_item(&DisplayCommand::SolidColor(RED, rect(0, 0, 2, 1)));
    c.paint_item(&DisplayCommand::SolidColor(GREEN, rect(1, 0, 2, 1)));
    assert_eq!(c.pixels(), &vec![RED, GREEN, GREEN]);
}

#[test]
fn rectangle_is_clipped_to_the_canvas() {
    let mut c = Canvas::new(3, 2);
    c.paint_item(&DisplayCommand::SolidColor(RED, rect(-5, -5, 7, 6)));
    let w = Color::white();
    assert_eq!(c.pixels(), &vec![RED, RED, w, w, w, w]);
    let mut c = Canvas::new(3, 2);
    c.paint_item(&DisplayCommand::SolidColor(RED, rect(2, 1, 100, 100)));
    assert_eq!(c.pixels(), &vec![w, w, w, w, w, RED]);
    let mut c = Canvas::new(3, 2);
    c.paint_item(&DisplayCommand::SolidColor(RED, rect(3, 0, 5, 5)));
    c.paint_item(&DisplayCommand::SolidColor(RED, rect(0, 2, 5, 5)));
    c.paint_item(&DisplayCommand::SolidColor(RED, rect(-9, 0, 9, 9)));
    assert_eq!(count(&c, RED), 0);
}

#[test]
fn degenerate_rectangles_paint_nothing() {
    let mut c = Canvas::new(3, 2);
    c.paint_item(&DisplayCommand::SolidColor(RED, rect(1, 0, -1, 2)));
    c.paint_item(&DisplayCommand::SolidColor(RED, rect(0, 1, 3, -2)));
    c.paint_item(&DisplayCommand::SolidColor(RED, rect(0, 0, 0, 2)));
    assert_eq!(count(&c, RED), 0);
}

#[test]
fn extreme_rectangles_stay_inside_the_canvas() {
    let extremes = [i32::MIN, i32::MIN + 1, -1, 0, 1, 2, i32::MAX - 1, i32::MAX];
    for &x in &extremes {
        for &y in &extremes {
            for &width in &extremes {
                for &height in &extremes {
                    let mut c = Canvas::new(2, 2);
                    c.paint_item(&DisplayCommand::SolidColor(BLUE, rect(x, y, width, height)));
                    assert_eq!((c.width(), c.height(), c.pixels().len()), (2, 2, 4));
                    for py in 0..2i64 {
                        for px in 0..2i64 {
                            let inside = x as i64 <= px
                                && px < x as i64 + width as i64
                                && y as i64 <= py
                                && py < y as i64 + height as i64;
                            let expected = if inside { BLUE } else { Color::white() };
                            assert_eq!(c.pixel(px as usize, py as usize), expected);
                        }
                    }
                }
            }
        }
    }
}

#[test]
fn painting_an_empty_canvas() {
    let mut c = Canvas::new(0, 0);
    c.paint_item(&DisplayCommand::SolidColor(RED, rect(0, 0, 5, 5)));
    assert_eq!(c.pixels().len(), 0);
}

#[test]
fn background_is_the_border_box() {
    let n = text(String::new());
    let s = styled(
        &n,
        &[
            ("display", "block"),
            ("width", "10px"),
            ("height", "20px"),
            ("padding-left", "1px"),
            ("padding-top", "2px"),
            ("border-right-width", "3px"),
            ("border-bottom-width", "4px"),
            ("margin-left", "5px"),
            ("margin-top", "6px"),
            ("background-color", "#ff0000"),
        ],
        vec![],
    );
    let b = layout_tree(&s, viewport(100, 100));
    assert_eq!(build_display_list(&b), vec![DisplayCommand::SolidColor(RED, rect(5, 6, 14, 26))]);
}

#[test]
fn borders_are_painted_left_right_top_bottom() {
    let n = text(String::new());
    let s = styled(
        &n,
        &[
            ("display", "block"),
            ("width", "10px"),
            ("height", "20px"),
            ("border-left-width", "1px"),
            ("border-right-width", "2px"),
            ("border-top-width", "3px"),
            ("border-bottom-width", "4px"),
            ("border-color", "#0000ff"),
            ("background-color", "#00ff00"),
        ],
        vec![],
    );
    let b = layout_tree(&s, viewport(100, 100));
    assert_eq!(
        build_display_list(&b),
        vec![
            DisplayCommand::SolidColor(GREEN, rect(0, 0, 13, 27)),
            DisplayCommand::SolidColor(BLUE, rect(0, 0, 1, 27)),
            DisplayCommand::SolidColor(BLUE, rect(11, 0, 2, 27)),
            DisplayCommand::SolidColor(BLUE, rect(0, 0, 13, 3)),
            DisplayCommand::SolidColor(BLUE, rect(0, 23, 13, 4)),
        ]
    );
}

#[test]
fn sides_without_width_are_left_out() {
    let n = text(String::new());
    let s = styled(
        &n,
        &[("display", "block"), ("width", "10px"), ("height", "20px"), ("border-top-width", "3px"), ("border-color", "#0000ff")],
        vec![],
    );
    let b = layout_tree(&s, viewport(100, 100));
    assert_eq!(build_display_list(&b), vec![DisplayCommand::SolidColor(BLUE, rect(0, 0, 10, 3))]);
}

#[test]
fn no_colour_paints_nothing() {
    let n = text(String::new());
    let s = styled(
        &n,
        &[("display", "block"), ("height", "20px"), ("border-top-width", "3px"), ("background-color", "transparent"), ("border-color", "blue")],
        vec![styled(&n, &[], vec![])],
    );
    let b = layout_tree(&s, viewport(100, 100));
    assert_eq!(build_display_list(&b), vec![]);
}

#[test]
fn boxes_are_painted_in_document_order() {
    let n = text(String::new());
    let a = styled(&n, &[("display", "block"), ("height", "1px"), ("background-color", "#00ff00")], vec![
        styled(&n, &[("display", "block"), ("height", "1px"), ("background-color", "#0000ff")], vec![]),
    ]);
    let b = styled(&n, &[("display", "block"), ("height", "1px"), ("background-color", "#000000")], vec![]);
    let root = styled(&n, &[("display", "block"), ("background-color", "#ff0000")], vec![a, b]);
    let tree = layout_tree(&root, viewport(10, 10));
    let colors: Vec<Color> = build_display_list(&tree)
        .iter()
        .map(|c| match c {
            DisplayCommand::SolidColor(color, _) => *color,
        })
        .collect();
    assert_eq!(colors, vec![RED, GREEN, BLUE, Color { r: 0, g: 0, b: 0, a: 255 }]);
}

#[test]
fn child_background_paints_over_parent() {
    let n = text(String::new());
    let child = styled(
        &n,
        &[("display", "block"), ("width", "2px"), ("height", "1px"), ("margin-left", "1px"), ("background-color", "#00ff00")],
        vec![],
    );
    let parent = styled(&n, &[("display", "block"), ("height", "2px"), ("background-color", "#ff0000")], vec![child]);
    let tree = layout_tree(&parent, viewport(4, 3));
    let c = paint(&tree, rect(0, 0, 4, 3));
    let w = Color::white();
    assert_eq!(
        c.pixels(),
        &vec![RED, GREEN, GREEN, RED, RED, RED, RED, RED, w, w, w, w]
    );
}

#[test]
fn painting_again_gives_the_same_canvas() {
    let n = text(String::new());
    let child = styled(&n, &[("display", "block"), ("width", "3px"), ("height", "2px"), ("background-color", "#00ff00")], vec![]);
    let parent = styled(
        &n,
        &[("display", "block"), ("border-top-width", "1px"), ("border-color", "#0000ff"), ("background-color", "#ff0000")],
        vec![child],
    );
    let tree = layout_tree(&parent, viewport(5, 5));
    let first = paint(&tree, rect(0, 0, 5, 5));
    let second = paint(&tree, rect(0, 0, 5, 5));
    assert_eq!(first.width(), second.width());
    assert_eq!(first.height(), second.height());
    assert_eq!(first.pixels(), second.pixels());
    assert_eq!(count(&first, GREEN), 6);
    assert_eq!(count(&first, BLUE), 5);
    assert_eq!(count(&first, RED), 4);
}

#[test]
fn negative_bounds_give_an_empty_canvas() {
    let n = text(String::new());
    let s = styled(&n, &[("background-color", "#ff0000"), ("height", "5px")], vec![]);
    let tree = layout_tree(&s, viewport(5, 5));
    let c = paint(&tree, rect(0, 0, -5, 5));
    assert_eq!((c.width(), c.height(), c.pixels().len()), (0, 5, 0));
    let c = paint(&tree, rect(0, 0, 5, -1));
    assert_eq!((c.width(), c.height(), c.pixels().len()), (5, 0, 0));
}

#[test]
fn canvas_must_fit() {
    assert!(canvas_fits(rect(0, 0, 800, 600)));
    assert!(canvas_fits(rect(0, 0, -1, i32::MAX)));
    assert!(canvas_fits(rect(0, 0, i32::MAX, 0)));
    assert_eq!(canvas_fits(rect(0, 0, i32::MAX, i32::MAX)), usize::BITS >= 64);
}
