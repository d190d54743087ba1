//! Scenes as SVG documents.
//!
//! The order of attributes is fixed, so that the same scene always gives the
//! same document. Numbers are given as text with two decimals.
use crate::escape::{escape_xml_apos, xml_apos_text};
use crate::text::{concat, same_str};
use vstd::prelude::*;

pub mod laws;

verus! {

/// How a text lies beside its point.
#[derive(Debug, Clone, Copy, PartialEq, Eq, Structural)]
pub enum TextAlign {
    /// To the right of it.
    Start,
    /// Around it.
    Middle,
    /// To the left of it.
    End,
}

/// A rectangle.
#[derive(Debug, PartialEq, Eq)]
pub struct Rect {
    /// The left side.
    pub x: String,
    /// The upper side.
    pub y: String,
    /// The width.
    pub width: String,
    /// The height.
    pub height: String,
    /// The radius of the corners.
    pub rx: String,
}

/// A point.
#[derive(Debug, PartialEq, Eq)]
pub struct Point {
    /// How far to the right it is.
    pub x: String,
    /// How far down it is.
    pub y: String,
}

/// A line through points, or the area inside it.
#[derive(Debug, PartialEq, Eq)]
pub struct Path {
    /// The points.
    pub points: Vec<Point>,
    /// Whether it is the area.
    pub filled: bool,
}

/// A text.
#[derive(Debug, PartialEq, Eq)]
pub struct Text {
    /// How far to the right its point is.
    pub x: String,
    /// How far down its point is.
    pub y: String,
    /// The size of the font.
    pub size: String,
    /// How it lies beside its point.
    pub align: TextAlign,
    /// What it says.
    pub content: String,
}

/// Items that belong together.
#[derive(Debug, PartialEq, Eq)]
pub struct Group {
    /// What they are.
    pub name: String,
    /// The items.
    pub items: Vec<SceneItem>,
}

/// An item of a scene.
#[derive(Debug, PartialEq, Eq)]
pub enum SceneItem {
    /// A rectangle.
    Rect(Rect),
    /// A line or an area.
    Path(Path),
    /// A text.
    Text(Text),
    /// Items that belong together.
    Group(Group),
}

/// A scene.
#[derive(Debug, PartialEq, Eq)]
pub struct Scene {
    /// The left side of what is shown.
    pub x: String,
    /// The upper side of what is shown.
    pub y: String,
    /// The width of what is shown.
    pub width: String,
    /// The height of what is shown.
    pub height: String,
    /// The items.
    pub items: Vec<SceneItem>,
}

/// A number with two decimals, without a sign where it is zero.
pub open spec fn number(s: Seq<char>) -> Seq<char> {
    if s == "-0.00"@ {
        "0.00"@
    } else {
        s
    }
}

/// A number with two decimals, without a sign where it is zero.
pub fn f(s: &str) -> (r: String)
    ensures
        r@ == number(s@),
{
    if same_str(s, "-0.00") {
        String::from_str("0.00")
    } else {
        String::from_str(s)
    }
}

fn push_number(out: &mut String, s: &str)
    ensures
        final(out)@ == old(out)@ + number(s@),
{
    let n = f(s);
    out.append(n.as_str());
}

/// Escapes `& < > " '` for XML attribute values and text.
pub fn escape(text: &str) -> (r: String)
    ensures
        r@ == xml_apos_text(text@),
{
    escape_xml_apos(text)
}

// ---------------------------------------------------------------------------
// Items
// ---------------------------------------------------------------------------

/// A rectangle, after the text `out`.
pub open spec fn rect_svg(out: Seq<char>, r: Rect, indent: Seq<char>) -> Seq<char> {
    out + indent + "<rect x=\""@ + number(r.x@) + "\" y=\""@ + number(r.y@) + "\" width=\""@ + number(
        r.width@,
    ) + "\" height=\""@ + number(r.height@) + "\" rx=\""@ + number(r.rx@) + "\" ry=\""@ + number(
        r.rx@,
    ) + "\" fill=\"#ffffff\" stroke=\"#000000\" stroke-width=\"1.50\"/>\n"@
}

/// The first `n` points of a path, with spaces between them.
pub open spec fn points_svg(points: Seq<Point>, n: int) -> Seq<char>
    decreases n,
{
    if n <= 0 {
        Seq::empty()
    } else {
        let before = points_svg(points, n - 1);
        let apart = if n > 1 {
            before + " "@
        } else {
            before
        };
        apart + number(points[n - 1].x@) + ","@ + number(points[n - 1].y@)
    }
}

/// A line or an area, after the text `out`.
pub open spec fn path_svg(out: Seq<char>, p: Path, indent: Seq<char>) -> Seq<char> {
    let points = points_svg(p.points@, p.points@.len() as int);
    if p.filled {
        out + indent + "<polygon points=\""@ + points + "\" fill=\"#000000\" stroke=\"none\"/>\n"@
    } else {
        out + indent + "<polyline points=\""@ + points
            + "\" fill=\"none\" stroke=\"#000000\" stroke-width=\"1.50\"/>\n"@
    }
}

/// The anchor of a text.
pub open spec fn anchor(align: TextAlign) -> Seq<char> {
    match align {
        TextAlign::Start => "start"@,
        TextAlign::Middle => "middle"@,
        TextAlign::End => "end"@,
    }
}

/// A text, after the text `out`.
pub open spec fn text_svg(out: Seq<char>, t: Text, indent: Seq<char>) -> Seq<char> {
    out + indent + "<text x=\""@ + number(t.x@) + "\" y=\""@ + number(t.y@)
        + "\" font-family=\"DejaVu Sans\" font-size=\""@ + number(t.size@) + "\" text-anchor=\""@
        + anchor(t.align) + "\" fill=\"#000000\">"@ + xml_apos_text(t.content@) + "</text>\n"@
}

/// An item, after the text `out`.
pub open spec fn item_svg(out: Seq<char>, item: SceneItem, indent: Seq<char>) -> Seq<char>
    decreases item, 0int,
{
    match item {
        SceneItem::Rect(r) => rect_svg(out, r, indent),
        SceneItem::Path(p) => path_svg(out, p, indent),
        SceneItem::Text(t) => text_svg(out, t, indent),
        SceneItem::Group(g) => items_svg(
            out + indent + "<g data-name=\""@ + xml_apos_text(g.name@) + "\">\n"@,
            g.items@,
            g.items@.len() as int,
            indent + "  "@,
        ) + indent + "</g>\n"@,
    }
}

/// The first `n` items, after the text `out`.
pub open spec fn items_svg(out: Seq<char>, items: Seq<SceneItem>, n: int, indent: Seq<char>) -> Seq<char>
    decreases items, n,
{
    if n <= 0 || n > items.len() {
        out
    } else {
        item_svg(items_svg(out, items, n - 1, indent), items[n - 1], indent)
    }
}

fn render_rect(out: &mut String, r: &Rect, indent: &str)
    ensures
        final(out)@ == rect_svg(old(out)@, *r, indent@),
{
    out.append(indent);
    out.append("<rect x=\"");
    push_number(out, r.x.as_str());
    out.append("\" y=\"");
    push_number(out, r.y.as_str());
    out.append("\" width=\"");
    push_number(out, r.width.as_str());
    out.append("\" height=\"");
    push_number(out, r.height.as_str());
    out.append("\" rx=\"");
    push_number(out, r.rx.as_str());
    out.append("\" ry=\"");
    push_number(out, r.rx.as_str());
    out.append("\" fill=\"#ffffff\" stroke=\"#000000\" stroke-width=\"1.50\"/>\n");
}

fn render_path(out: &mut String, p: &Path, indent: &str)
    ensures
        final(out)@ == path_svg(old(out)@, *p, indent@),
{
    let mut points = String::new();
    let mut i: usize = 0;
    while i < p.points.len()
        invariant
            i <= p.points@.len(),
            points@ == points_svg(p.points@, i as int),
        decreases p.points@.len() - i,
    {
        if i > 0 {
            points.append(" ");
        }
        push_number(&mut points, p.points[i].x.as_str());
        points.append(",");
        push_number(&mut points, p.points[i].y.as_str());
        i = i + 1;
    }
    out.append(indent);
    if p.filled {
        out.append("<polygon points=\"");
        out.append(points.as_str());
        out.append("\" fill=\"#000000\" stroke=\"none\"/>\n");
    } else {
        out.append("<polyline points=\"");
        out.append(points.as_str());
        out.append("\" fill=\"none\" stroke=\"#000000\" stroke-width=\"1.50\"/>\n");
    }
}

fn render_text(out: &mut String, t: &Text, indent: &str)
    ensures
        final(out)@ == text_svg(old(out)@, *t, indent@),
{
    let anchor_text: &'static str = match t.align {
        TextAlign::Start => "start",
        TextAlign::Middle => "middle",
        TextAlign::End => "end",
    };
    out.append(indent);
    out.append("<text x=\"");
    push_number(out, t.x.as_str());
    out.append("\" y=\"");
    push_number(out, t.y.as_str());
    out.append("\" font-family=\"DejaVu Sans\" font-size=\"");
    push_number(out, t.size.as_str());
    out.append("\" text-anchor=\"");
    out.append(anchor_text);
    out.append("\" fill=\"#000000\">");
    let content = escape(t.content.as_str());
    out.append(content.as_str());
    out.append("</text>\n");
}

fn render_item(out: &mut String, item: &SceneItem, indent: &str)
    ensures
        final(out)@ == item_svg(old(out)@, *item, indent@),
    decreases item,
{
    match item {
        SceneItem::Rect(r) => {
            render_rect(out, r, indent);
        },
        SceneItem::Path(p) => {
            render_path(out, p, indent);
        },
        SceneItem::Text(t) => {
            render_text(out, t, indent);
        },
        SceneItem::Group(g) => {
            out.append(indent);
            out.append("<g data-name=\"");
            let name = escape(g.name.as_str());
            out.append(name.as_str());
            out.append("\">\n");
            let deeper = concat(indent, "  ");
            let ghost opened = out@;
            let mut i: usize = 0;
            while i < g.items.len()
                invariant
                    i <= g.items@.len(),
                    *item == SceneItem::Group(*g),
                    deeper@ == indent@ + "  "@,
                    out@ == items_svg(opened, g.items@, i as int, deeper@),
                decreases g.items@.len() - i,
            {
                let child = &g.items[i];
                assert(decreases_to!(item => item->Group_0.items@[i as int]));
                render_item(out, child, deeper.as_str());
                i = i + 1;
            }
            out.append(indent);
            out.append("</g>\n");
        },
    }
}

// ---------------------------------------------------------------------------
// Documents
// ---------------------------------------------------------------------------

/// The opening of a document, with a white ground.
pub open spec fn opening(s: Scene) -> Seq<char> {
    "<svg xmlns=\"http://www.w3.org/2000/svg\" viewBox=\""@ + number(s.x@) + " "@ + number(s.y@)
        + " "@ + number(s.width@) + " "@ + number(s.height@) + "\" width=\""@ + number(s.width@)
        + "\" height=\""@ + number(s.height@) + "\">\n"@ + "  <rect x=\""@ + number(s.x@)
        + "\" y=\""@ + number(s.y@) + "\" width=\""@ + number(s.width@) + "\" height=\""@ + number(
        s.height@,
    ) + "\" fill=\"#ffffff\"/>\n"@
}

/// The document of a scene.
pub open spec fn document(s: Scene) -> Seq<char> {
    items_svg(opening(s), s.items@, s.items@.len() as int, "  "@) + "</svg>\n"@
}

/// Renders a scene as an SVG document.
pub fn render(scene: &Scene) -> (r: String)
    ensures
        r@ == document(*scene),
{
    let mut out = String::from_str("<svg xmlns=\"http://www.w3.org/2000/svg\" viewBox=\"");
    push_number(&mut out, scene.x.as_str());
    out.append(" ");
    push_number(&mut out, scene.y.as_str());
    out.append(" ");
    push_number(&mut out, scene.width.as_str());
    out.append(" ");
    push_number(&mut out, scene.height.as_str());
    out.append("\" width=\"");
    push_number(&mut out, scene.width.as_str());
    out.append("\" height=\"");
    push_number(&mut out, scene.height.as_str());
    out.append("\">\n");
    out.append("  <rect x=\"");
    push_number(&mut out, scene.x.as_str());
    out.append("\" y=\"");
    push_number(&mut out, scene.y.as_str());
    out.append("\" width=\"");
    push_number(&mut out, scene.width.as_str());
    out.append("\" height=\"");
    push_number(&mut out, scene.height.as_str());
    out.append("\" fill=\"#ffffff\"/>\n");
    let mut i: usize = 0;
    while i < scene.items.len()
        invariant
            i <= scene.items@.len(),
            out@ == items_svg(opening(*scene), scene.items@, i as int, "  "@),
        decreases scene.items@.len() - i,
    {
        render_item(&mut out, &scene.items[i], "  ");
        i = i + 1;
    }
    out.append("</svg>\n");
    out
}

} // verus!
