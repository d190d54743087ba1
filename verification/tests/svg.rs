use kozue::svg::{escape, f, render, Group, Path, Point, Rect, Scene, SceneItem, Text, TextAlign};

fn text(s: &str) -> String {
    s.to_string()
}

fn scene(items: Vec<SceneItem>) -> Scene {
    Scene { x: text("-20.00"), y: text("-20.00"), width: text("40.00"), height: text("40.00"), items }
}

fn point(x: &str, y: &str) -> Point {
    Point { x: text(x), y: text(y) }
}

#[test]
fn empty_scene_renders_valid_svg() {
    let svg = render(&scene(vec![]));
    assert!(svg.starts_with("<svg"));
    assert!(svg.trim_end().ends_with("</svg>"));
    assert_eq!(
        svg,
        "<svg xmlns=\"http://www.w3.org/2000/svg\" viewBox=\"-20.00 -20.00 40.00 40.00\" \
         width=\"40.00\" height=\"40.00\">\n  <rect x=\"-20.00\" y=\"-20.00\" width=\"40.00\" \
         height=\"40.00\" fill=\"#ffffff\"/>\n</svg>\n"
    );
}

#[test]
fn float_formatting_is_fixed() {
    assert_eq!(f(&format!("{:.2}", 1.005)), "1.00");
    assert_eq!(f(&format!("{:.2}", -0.0)), "0.00");
    assert_eq!(f(&format!("{:.2}", 3.14159)), "3.14");
}

#[test]
fn items_are_drawn_in_order_and_groups_are_indented() {
    let svg = render(&scene(vec![
        SceneItem::Path(Path { points: vec![point("0.00", "-0.00"), point("1.00", "2.00")], filled: false }),
        SceneItem::Group(Group {
            name: text("a\"b"),
            items: vec![
                SceneItem::Rect(Rect {
                    x: text("0.00"),
                    y: text("1.00"),
                    width: text("2.00"),
                    height: text("3.00"),
                    rx: text("4.00"),
                }),
                SceneItem::Text(Text {
                    x: text("5.00"),
                    y: text("6.00"),
                    size: text("16.00"),
                    align: TextAlign::Middle,
                    content: text("x < 'y'"),
                }),
            ],
        }),
        SceneItem::Path(Path { points: vec![point("0.00", "0.00")], filled: true }),
    ]));
    let lines: Vec<&str> = svg.lines().skip(2).collect();
    assert_eq!(
        lines,
        [
            "  <polyline points=\"0.00,0.00 1.00,2.00\" fill=\"none\" stroke=\"#000000\" stroke-width=\"1.50\"/>",
            "  <g data-name=\"a&quot;b\">",
            "    <rect x=\"0.00\" y=\"1.00\" width=\"2.00\" height=\"3.00\" rx=\"4.00\" ry=\"4.00\" fill=\"#ffffff\" stroke=\"#000000\" stroke-width=\"1.50\"/>",
            "    <text x=\"5.00\" y=\"6.00\" font-family=\"DejaVu Sans\" font-size=\"16.00\" text-anchor=\"middle\" fill=\"#000000\">x &lt; &apos;y&apos;</text>",
            "  </g>",
            "  <polygon points=\"0.00,0.00\" fill=\"#000000\" stroke=\"none\"/>",
            "</svg>",
        ]
    );
}

#[test]
fn text_is_escaped() {
    assert_eq!(escape("<a & \"b\" 'c'>"), "&lt;a &amp; &quot;b&quot; &apos;c&apos;&gt;");
}
