use jerry::canvas::Canvas;
use jerry::css::{Declaration, Rule, Selector, Stylesheet};
use jerry::dom::{elem, Attribute, Node};
use jerry::export::{channels, export};
use jerry::geometry::Dimensions;
use jerry::painting::DisplayCommand;
use jerry::geometry::Rect;
use jerry::render::render;
use jerry::values::Color;

const RED: Color = Color { r: 255, g: 0, b: 0, a: 255 };
const GREEN: Color = Color { r: 0, g: 255, b: 0, a: 255 };

fn div(class: &str, children: Vec<Node>) -> Node {
    elem(
        "div".to_string(),
        vec![Attribute { name: "class".to_string(), value: class.to_string() }],
        children,
    )
}

fn class_rule(class: &str, declarations: &[(&str, &str)], source_index: usize) -> Rule {
    Rule {
        selectors: vec![Selector { tag_name: None, id: None, classes: vec![class.to_string()] }],
        declarations: declarations
            .iter()
            .map(|(n, v)| Declaration { name: n.to_string(), value: v.to_string() })
            .collect(),
        source_index,
    }
}

fn viewport(width: i32, height: i32) -> Dimensions {
    let mut d = Dimensions::zero();
    d.content.width = width;
    d.content.height = height;
    d
}

#[test]
fn red_block_with_green_block_inside() {
    let doc = div("a", vec![div("b", vec![])]);
    let sheet = Stylesheet {
        rules: vec![
            class_rule("a", &[("width", "200px"), ("background-color", "#ff0000")], 0),
            class_rule("b", &[("width", "100px"), ("height", "50px"), ("background-color", "#00ff00")], 1),
        ],
    };
    let canvas = render(&doc, &sheet, viewport(300, 300));
    assert_eq!((canvas.width(), canvas.height()), (300, 300));
    for y in 0..300 {
        for x in 0..300 {
            let expected = if x < 100 && y < 50 {
                GREEN
            } else if x < 200 && y < 50 {
                RED
            } else {
                Color::white()
            };
            assert_eq!(canvas.pixel(x, y), expected, "at column {} of row {}", x, y);
        }
    }
}

#[test]
fn hidden_root_leaves_the_canvas_white() {
    let doc = div("a", vec![div("b", vec![])]);
    let sheet = Stylesheet {
        rules: vec![
            class_rule("a", &[("display", "none"), ("background-color", "#ff0000")], 0),
            class_rule("b", &[("height", "50px"), ("background-color", "#00ff00")], 1),
        ],
    };
    let canvas = render(&doc, &sheet, viewport(20, 10));
    assert_eq!(canvas.pixels().len(), 200);
    assert!(canvas.pixels().iter().all(|p| *p == Color::white()));
}

#[test]
fn hidden_child_is_not_painted() {
    let doc = div("a", vec![div("b", vec![div("c", vec![])]), div("c", vec![])]);
    let sheet = Stylesheet {
        rules: vec![
            class_rule("a", &[("display", "block")], 0),
            class_rule("b", &[("display", "none"), ("height", "5px")], 1),
            class_rule("c", &[("display", "block"), ("height", "2px"), ("background-color", "#00ff00")], 2),
        ],
    };
    let canvas = render(&doc, &sheet, viewport(3, 4));
    let w = Color::white();
    assert_eq!(
        canvas.pixels(),
        &vec![GREEN, GREEN, GREEN, GREEN, GREEN, GREEN, w, w, w, w, w, w]
    );
}

#[test]
fn empty_stylesheet_paints_nothing() {
    let doc = div("a", vec![div("b", vec![])]);
    let canvas = render(&doc, &Stylesheet { rules: vec![] }, viewport(3, 3));
    assert!(canvas.pixels().iter().all(|p| *p == Color::white()));
}

#[test]
fn samples_are_the_channels_of_the_pixels() {
    let mut canvas = Canvas::new(2, 2);
    canvas.paint_item(&DisplayCommand::SolidColor(
        Color { r: 1, g: 2, b: 3, a: 4 },
        Rect { x: 1, y: 0, width: 1, height: 1 },
    ));
    canvas.paint_item(&DisplayCommand::SolidColor(
        Color { r: 5, g: 6, b: 7, a: 8 },
        Rect { x: 0, y: 1, width: 1, height: 1 },
    ));
    assert_eq!(channels(&canvas, 1, 0), [1, 2, 3, 4]);
    assert_eq!(channels(&canvas, 0, 1), [5, 6, 7, 8]);
    assert_eq!(
        export(&canvas),
        Some(vec![255, 255, 255, 255, 1, 2, 3, 4, 5, 6, 7, 8, 255, 255, 255, 255])
    );
}

#[test]
fn empty_canvas_has_no_samples() {
    assert_eq!(export(&Canvas::new(0, 3)), Some(vec![]));
    assert_eq!(export(&Canvas::new(3, 0)), Some(vec![]));
}

#[test]
fn wide_canvas_without_rows() {
    // The samples of one row must be countable, even where there is no row.
    let width: usize = 1 << 30;
    let expected = if width.checked_mul(4).is_some() { Some(vec![]) } else { None };
    assert_eq!(export(&Canvas::new(width, 0)), expected);
}

#[test]
fn canvas_wider_than_a_picture_has_no_samples() {
    if usize::BITS >= 64 {
        assert_eq!(export(&Canvas::new(1 << 32, 0)), None);
        assert_eq!(export(&Canvas::new(0, 1 << 32)), None);
    }
}

#[test]
fn samples_can_be_made_an_image_again() {
    let doc = div("a", vec![]);
    let sheet = Stylesheet {
        rules: vec![class_rule("a", &[("width", "2px"), ("height", "1px"), ("background-color", "#ff0000")], 0)],
    };
    let canvas = render(&doc, &sheet, viewport(3, 2));
    let samples = export(&canvas).expect("a small canvas can be held");
    let img = image::RgbaImage::from_raw(3, 2, samples).expect("the samples fill the image");
    assert_eq!(img.get_pixel(0, 0).0, [255, 0, 0, 255]);
    assert_eq!(img.get_pixel(1, 0).0, [255, 0, 0, 255]);
    assert_eq!(img.get_pixel(2, 0).0, [255, 255, 255, 255]);
    assert_eq!(img.get_pixel(0, 1).0, [255, 255, 255, 255]);
}
