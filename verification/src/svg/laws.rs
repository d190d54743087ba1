//! What the documents show.
use crate::escape::xml_apos_text;
use crate::parts::{
    holds, lemma_holds, lemma_starts_holds, lemma_starts_more_of, lemma_starts_self,
    lemma_starts_trans, starts,
};
use crate::svg::{
    anchor, document, item_svg, items_svg, opening, path_svg, points_svg, rect_svg, text_svg,
    Path, Point, Rect, Scene, SceneItem, Text, TextAlign,
};
use vstd::prelude::*;

verus! {

/// A number as it is written: a zero has no sign.
pub open spec fn unsigned_zero(s: Seq<char>) -> Seq<char> {
    if s == "-0.00"@ {
        "0.00"@
    } else {
        s
    }
}

/// A rectangle as it is written: where it lies, how large it is and how round its
/// corners are.
pub open spec fn written_rect(r: Rect) -> Seq<char> {
    "<rect x=\""@ + unsigned_zero(r.x@) + "\" y=\""@ + unsigned_zero(r.y@) + "\" width=\""@
        + unsigned_zero(r.width@) + "\" height=\""@ + unsigned_zero(r.height@) + "\" rx=\""@
        + unsigned_zero(r.rx@) + "\" ry=\""@ + unsigned_zero(r.rx@)
        + "\" fill=\"#ffffff\" stroke=\"#000000\" stroke-width=\"1.50\"/>\n"@
}

/// A point as it is written.
pub open spec fn written_point(p: Point) -> Seq<char> {
    unsigned_zero(p.x@) + ","@ + unsigned_zero(p.y@)
}

/// The first `n` points as they are written, with a space between each and the next.
pub open spec fn written_points(points: Seq<Point>, n: int) -> Seq<char>
    decreases n,
{
    if n <= 0 {
        Seq::empty()
    } else if n == 1 {
        written_point(points[0])
    } else {
        written_points(points, n - 1) + " "@ + written_point(points[n - 1])
    }
}

/// A path as it is written, through all its points in their order: an area where it is
/// filled, a line where it is not.
pub open spec fn written_path(p: Path) -> Seq<char> {
    if p.filled {
        "<polygon points=\""@ + written_points(p.points@, p.points@.len() as int)
            + "\" fill=\"#000000\" stroke=\"none\"/>\n"@
    } else {
        "<polyline points=\""@ + written_points(p.points@, p.points@.len() as int)
            + "\" fill=\"none\" stroke=\"#000000\" stroke-width=\"1.50\"/>\n"@
    }
}

/// A text as it is written: where it stands, how large it is, how it is aligned, and
/// what it says.
pub open spec fn written_text(t: Text) -> Seq<char> {
    "<text x=\""@ + unsigned_zero(t.x@) + "\" y=\""@ + unsigned_zero(t.y@)
        + "\" font-family=\"DejaVu Sans\" font-size=\""@ + unsigned_zero(t.size@)
        + "\" text-anchor=\""@ + (match t.align {
        TextAlign::Start => "start"@,
        TextAlign::Middle => "middle"@,
        TextAlign::End => "end"@,
    }) + "\" fill=\"#000000\">"@ + xml_apos_text(t.content@) + "</text>\n"@
}

/// Whether an item is in a text, with all it holds.
pub open spec fn item_shown(text: Seq<char>, item: SceneItem) -> bool
    decreases item, 0int,
{
    match item {
        SceneItem::Rect(r) => holds(text, written_rect(r)),
        SceneItem::Path(p) => holds(text, written_path(p)),
        SceneItem::Text(t) => holds(text, written_text(t)),
        SceneItem::Group(g) => holds(text, "<g data-name=\""@ + xml_apos_text(g.name@) + "\">\n"@)
            && items_shown(text, g.items@, g.items@.len() as int),
    }
}

/// Whether the first `n` items are in a text.
pub open spec fn items_shown(text: Seq<char>, items: Seq<SceneItem>, n: int) -> bool
    decreases items, n,
{
    n <= 0 || n > items.len() || (items_shown(text, items, n - 1) && item_shown(text, items[n - 1]))
}

proof fn lemma_eleven(
    o: Seq<char>,
    i: Seq<char>,
    a: Seq<char>,
    b: Seq<char>,
    c: Seq<char>,
    d: Seq<char>,
    e: Seq<char>,
    f: Seq<char>,
    g: Seq<char>,
    h: Seq<char>,
    j: Seq<char>,
    k: Seq<char>,
    l: Seq<char>,
)
    ensures
        o + i + a + b + c + d + e + f + g + h + j + k + l == o + i + (a + b + c + d + e + f + g + h
            + j + k + l),
{
    assert(o + i + a + b + c + d + e + f + g + h + j + k + l =~= o + i + (a + b + c + d + e + f + g
        + h + j + k + l));
}

proof fn lemma_rect(out: Seq<char>, r: Rect, indent: Seq<char>)
    ensures
        starts(rect_svg(out, r, indent), out),
        holds(rect_svg(out, r, indent), written_rect(r)),
{
    let w = written_rect(r);
    let first = "<rect x=\""@ + unsigned_zero(r.x@) + "\" y=\""@ + unsigned_zero(r.y@)
        + "\" width=\""@ + unsigned_zero(r.width@) + "\" height=\""@ + unsigned_zero(r.height@)
        + "\" rx=\""@ + unsigned_zero(r.rx@) + "\" ry=\""@;
    let (x, y) = (
        unsigned_zero(r.rx@),
        "\" fill=\"#ffffff\" stroke=\"#000000\" stroke-width=\"1.50\"/>\n"@,
    );
    lemma_eleven(
        out,
        indent,
        "<rect x=\""@,
        unsigned_zero(r.x@),
        "\" y=\""@,
        unsigned_zero(r.y@),
        "\" width=\""@,
        unsigned_zero(r.width@),
        "\" height=\""@,
        unsigned_zero(r.height@),
        "\" rx=\""@,
        unsigned_zero(r.rx@),
        "\" ry=\""@,
    );
    assert(out + indent + first + x + y =~= out + indent + (first + x + y));
    lemma_item(out, indent, w);
}

/// What is written behind a text and an indentation.
proof fn lemma_item(out: Seq<char>, indent: Seq<char>, w: Seq<char>)
    ensures
        starts(out + indent + w, out),
        holds(out + indent + w, w),
{
    assert(out + indent + w =~= out + (indent + w));
    lemma_starts_self(out, indent + w);
    assert(out + indent + w =~= (out + indent) + w + Seq::empty());
    lemma_holds(out + indent + w, out + indent, w, Seq::empty());
}

proof fn lemma_points(points: Seq<Point>, n: int)
    requires
        0 <= n <= points.len(),
    ensures
        points_svg(points, n) == written_points(points, n),
    decreases n,
{
    if n > 0 {
        lemma_points(points, n - 1);
        let before = points_svg(points, n - 1);
        let (x, y) = (unsigned_zero(points[n - 1].x@), unsigned_zero(points[n - 1].y@));
        if n > 1 {
            assert(before + " "@ + x + ","@ + y =~= before + " "@ + (x + ","@ + y));
        } else {
            assert(before + x + ","@ + y =~= x + ","@ + y);
        }
    }
}

proof fn lemma_path(out: Seq<char>, p: Path, indent: Seq<char>)
    ensures
        starts(path_svg(out, p, indent), out),
        holds(path_svg(out, p, indent), written_path(p)),
{
    let n = p.points@.len() as int;
    lemma_points(p.points@, n);
    let points = written_points(p.points@, n);
    let (a, b) = if p.filled {
        ("<polygon points=\""@, "\" fill=\"#000000\" stroke=\"none\"/>\n"@)
    } else {
        ("<polyline points=\""@, "\" fill=\"none\" stroke=\"#000000\" stroke-width=\"1.50\"/>\n"@)
    };
    assert(out + indent + a + points + b =~= out + indent + (a + points + b));
    lemma_item(out, indent, written_path(p));
}

proof fn lemma_text(out: Seq<char>, t: Text, indent: Seq<char>)
    ensures
        starts(text_svg(out, t, indent), out),
        holds(text_svg(out, t, indent), written_text(t)),
{
    lemma_eleven(
        out,
        indent,
        "<text x=\""@,
        unsigned_zero(t.x@),
        "\" y=\""@,
        unsigned_zero(t.y@),
        "\" font-family=\"DejaVu Sans\" font-size=\""@,
        unsigned_zero(t.size@),
        "\" text-anchor=\""@,
        anchor(t.align),
        "\" fill=\"#000000\">"@,
        xml_apos_text(t.content@),
        "</text>\n"@,
    );
    lemma_item(out, indent, written_text(t));
}

proof fn lemma_still_shown(before: Seq<char>, text: Seq<char>, item: SceneItem)
    requires
        starts(text, before),
        item_shown(before, item),
    ensures
        item_shown(text, item),
    decreases item, 0int,
{
    match item {
        SceneItem::Rect(r) => {
            lemma_starts_holds(text, before, written_rect(r));
        },
        SceneItem::Path(p) => {
            lemma_starts_holds(text, before, written_path(p));
        },
        SceneItem::Text(t) => {
            lemma_starts_holds(text, before, written_text(t));
        },
        SceneItem::Group(g) => {
            lemma_starts_holds(
                text,
                before,
                "<g data-name=\""@ + xml_apos_text(g.name@) + "\">\n"@,
            );
            lemma_all_still_shown(before, text, g.items@, g.items@.len() as int);
        },
    }
}

proof fn lemma_all_still_shown(
    before: Seq<char>,
    text: Seq<char>,
    items: Seq<SceneItem>,
    n: int,
)
    requires
        starts(text, before),
        items_shown(before, items, n),
    ensures
        items_shown(text, items, n),
    decreases items, n,
{
    if 0 < n <= items.len() {
        lemma_all_still_shown(before, text, items, n - 1);
        lemma_still_shown(before, text, items[n - 1]);
    }
}

proof fn lemma_item_shown(out: Seq<char>, item: SceneItem, indent: Seq<char>)
    ensures
        starts(item_svg(out, item, indent), out),
        item_shown(item_svg(out, item, indent), item),
    decreases item, 0int,
{
    match item {
        SceneItem::Rect(r) => {
            lemma_rect(out, r, indent);
        },
        SceneItem::Path(p) => {
            lemma_path(out, p, indent);
        },
        SceneItem::Text(t) => {
            lemma_text(out, t, indent);
        },
        SceneItem::Group(g) => {
            let name = "<g data-name=\""@ + xml_apos_text(g.name@) + "\">\n"@;
            let opened = out + indent + "<g data-name=\""@ + xml_apos_text(g.name@) + "\">\n"@;
            assert(opened =~= out + indent + name);
            lemma_item(out, indent, name);
            let n = g.items@.len() as int;
            lemma_items_shown(opened, g.items@, n, indent + "  "@);
            let filled = items_svg(opened, g.items@, n, indent + "  "@);
            let all = filled + indent + "</g>\n"@;
            assert(all =~= filled + (indent + "</g>\n"@));
            lemma_starts_self(filled, indent + "</g>\n"@);
            lemma_starts_trans(all, filled, opened);
            lemma_starts_trans(all, opened, out);
            lemma_starts_holds(all, opened, name);
            lemma_all_still_shown(filled, all, g.items@, n);
        },
    }
}

proof fn lemma_items_shown(out: Seq<char>, items: Seq<SceneItem>, n: int, indent: Seq<char>)
    ensures
        starts(items_svg(out, items, n, indent), out),
        items_shown(items_svg(out, items, n, indent), items, n),
    decreases items, n,
{
    if 0 < n <= items.len() {
        let before = items_svg(out, items, n - 1, indent);
        lemma_items_shown(out, items, n - 1, indent);
        lemma_item_shown(before, items[n - 1], indent);
        let after = items_svg(out, items, n, indent);
        lemma_starts_trans(after, before, out);
        lemma_all_still_shown(before, after, items, n - 1);
    } else {
        lemma_starts_self(out, out);
    }
}

proof fn lemma_pick(text: Seq<char>, items: Seq<SceneItem>, n: int, i: int)
    requires
        items_shown(text, items, n),
        0 <= i < n <= items.len(),
    ensures
        item_shown(text, items[i]),
    decreases n,
{
    if i < n - 1 {
        lemma_pick(text, items, n - 1, i);
    }
}

/// The document of a scene shows every item, and every item of every group: each
/// rectangle with its own place, each path with all its points, each text with what it
/// says.
pub proof fn law_items_are_shown(s: Scene, i: int)
    requires
        0 <= i < s.items@.len(),
    ensures
        item_shown(document(s), s.items@[i]),
{
    let n = s.items@.len() as int;
    let text = items_svg(opening(s), s.items@, n, "  "@);
    lemma_items_shown(opening(s), s.items@, n, "  "@);
    lemma_starts_self(text, "</svg>\n"@);
    lemma_all_still_shown(text, document(s), s.items@, n);
    lemma_pick(document(s), s.items@, n, i);
}

/// The document of a scene opens with its size: what it shows begins at its corner, and
/// is as wide and as high as the scene.
pub proof fn law_size_is_shown(s: Scene)
    ensures
        starts(
            document(s),
            "<svg xmlns=\"http://www.w3.org/2000/svg\" viewBox=\""@ + unsigned_zero(s.x@) + " "@
                + unsigned_zero(s.y@) + " "@ + unsigned_zero(s.width@) + " "@ + unsigned_zero(
                s.height@,
            ) + "\" width=\""@ + unsigned_zero(s.width@) + "\" height=\""@ + unsigned_zero(
                s.height@,
            ) + "\">\n"@,
        ),
{
    let n = s.items@.len() as int;
    let text = items_svg(opening(s), s.items@, n, "  "@);
    let top = "<svg xmlns=\"http://www.w3.org/2000/svg\" viewBox=\""@ + unsigned_zero(s.x@) + " "@
        + unsigned_zero(s.y@) + " "@ + unsigned_zero(s.width@) + " "@ + unsigned_zero(s.height@)
        + "\" width=\""@ + unsigned_zero(s.width@) + "\" height=\""@ + unsigned_zero(s.height@)
        + "\">\n"@;
    let (a, b, c, d, e) = (
        "  <rect x=\""@,
        "\" y=\""@,
        "\" width=\""@,
        "\" height=\""@,
        "\" fill=\"#ffffff\"/>\n"@,
    );
    let (x, y, w, h) = (
        unsigned_zero(s.x@),
        unsigned_zero(s.y@),
        unsigned_zero(s.width@),
        unsigned_zero(s.height@),
    );
    let ground = a + x + b + y + c + w + d + h + e;
    assert(top + a + x + b + y + c + w + d + h + e =~= top + ground);
    lemma_starts_self(top, ground);
    lemma_items_shown(opening(s), s.items@, n, "  "@);
    lemma_starts_trans(text, opening(s), top);
    lemma_starts_more_of(text, top, "</svg>\n"@);
}

} // verus!
