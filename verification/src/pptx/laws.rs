//! What a slide shows.
use crate::escape::xml_apos_text;
use crate::ir::{ArrowType, LineStyle};
use crate::layout::{
    GraphLayoutView, NodeLayoutView, ParticipantLayoutView, SemanticLayoutView,
    SequenceLayoutView, StateBoxView, StateLayoutView,
};
use crate::parts::{
    holds, lemma_holds, lemma_holds_more, lemma_holds_trans, lemma_starts_self, starts,
};
use crate::pptx::{
    connection, edges, graph_slide, layout_slide, messages, nodes, part, participants, parts,
    presentation, pseudostates, sequence_slide, slide_text, state_slide, states, transitions,
    HeaderEmuView, PathEmuView, RenderErrorView,
};
use crate::pptx::shapes::{
    bends, bent_xml, box_xml, collinear, connector_xml, ellipse_xml, label_xml, opening, outline,
    path_points, run, shape_xml, shapes_xml, straight_xml, PointEmu, RectEmu, RouteEmuView,
    ShapeView,
};
use crate::text::{decimal, signed};
use crate::zip::{archive, Stored};
use vstd::prelude::*;

verus! {

// ---------------------------------------------------------------------------
// Shapes
// ---------------------------------------------------------------------------

/// How a place is written: the upper left corner, and the width and the height.
pub open spec fn written_place(x: int, y: int, w: int, h: int) -> Seq<char> {
    "<a:off x=\""@ + signed(x) + "\" y=\""@ + signed(y) + "\"/><a:ext cx=\""@ + signed(w)
        + "\" cy=\""@ + signed(h) + "\"/></a:xfrm>"@
}

/// How a place is written that is mirrored from left to right by `flip_h`, and from
/// top to bottom by `flip_v`.
pub open spec fn mirrored_place(flip_h: bool, flip_v: bool, x: int, y: int, w: int, h: int) -> Seq<
    char,
> {
    "<a:xfrm"@ + (if flip_h {
        " flipH=\"1\""@
    } else {
        ""@
    }) + (if flip_v {
        " flipV=\"1\""@
    } else {
        ""@
    }) + ">"@ + written_place(x, y, w, h)
}

/// Where the line from the upper left to the lower right corner of a box starts once
/// the box is mirrored.
pub open spec fn mirrored_start(flip_h: bool, flip_v: bool, x: int, y: int, w: int, h: int) -> (
    int,
    int,
) {
    (
        if flip_h {
            x + w
        } else {
            x
        },
        if flip_v {
            y + h
        } else {
            y
        },
    )
}

/// Where that line ends.
pub open spec fn mirrored_end(flip_h: bool, flip_v: bool, x: int, y: int, w: int, h: int) -> (
    int,
    int,
) {
    mirrored_start(!flip_h, !flip_v, x, y, w, h)
}

/// Whether what a route says of its ends is so of its points: how far they are apart,
/// on which side the last one lies of the first, and that they lie at corners of the
/// box around the route.
pub open spec fn measured(route: RouteEmuView) -> bool {
    let a = route.points[0];
    let b = route.points[route.points.len() - 1];
    &&& route.points.len() > 0
    &&& route.leftward == (b.x < a.x)
    &&& route.upward == (b.y < a.y)
    &&& route.across == (if b.x < a.x {
        a.x - b.x
    } else {
        b.x - a.x
    })
    &&& route.down == (if b.y < a.y {
        a.y - b.y
    } else {
        b.y - a.y
    })
    &&& a.x == 0 || b.x == 0
    &&& a.y == 0 || b.y == 0
    &&& 0 <= a.x && 0 <= b.x && 0 <= a.y && 0 <= b.y
}

/// A straight connector starts at the first point of its route and ends at the last
/// one: the line in its place, mirrored as the attributes say, runs from the one to
/// the other. It is mirrored from left to right exactly if the last point lies left
/// of the first, and from top to bottom exactly if it lies above it.
pub proof fn law_straight_connector_runs_from_first_to_last(
    id: int,
    name: Seq<char>,
    route: RouteEmuView,
    dashed: bool,
    arrow: bool,
)
    requires
        measured(route),
        collinear(route.points) || route.points.len() <= 2 || !route.has_area,
    ensures
        ({
            let a = route.points[0];
            let b = route.points[route.points.len() - 1];
            let (x, y) = (route.frame.x as int, route.frame.y as int);
            let (w, h) = (route.across as int, route.down as int);
            let (flip_h, flip_v) = (b.x < a.x, b.y < a.y);
            let xml = shape_xml(id, ShapeView::Connector { name, route, dashed, arrow });
            &&& starts(xml, "<p:cxnSp><p:nvCxnSpPr><p:cNvPr id=\""@ + decimal(id))
            &&& holds(xml, mirrored_place(flip_h, flip_v, x, y, w, h))
            &&& mirrored_start(flip_h, flip_v, x, y, w, h) == (x + a.x, y + a.y)
            &&& mirrored_end(flip_h, flip_v, x, y, w, h) == (x + b.x, y + b.y)
        }),
{
    let xml = straight_xml(id, name, route, dashed, arrow);
    let a = route.points[0];
    let b = route.points[route.points.len() - 1];
    let (x, y) = (route.frame.x as int, route.frame.y as int);
    let (w, h) = (route.across as int, route.down as int);
    let (flip_h, flip_v) = (b.x < a.x, b.y < a.y);
    let begun = "<p:cxnSp><p:nvCxnSpPr><p:cNvPr id=\""@ + decimal(id);
    let named = "\" name=\""@ + xml_apos_text(name)
        + "\"/><p:cNvCxnSpPr/><p:nvPr/></p:nvCxnSpPr><p:spPr>"@;
    let place = mirrored_place(flip_h, flip_v, x, y, w, h);
    let rest = "<a:prstGeom prst=\"straightConnector1\"><a:avLst/></a:prstGeom>"@ + outline(
        dashed,
        arrow,
    ) + "</p:spPr></p:cxnSp>"@;
    lemma_straight_parts(id, name, route, dashed, arrow);
    assert(xml == begun + named + place + rest);
    lemma_holds(xml, begun + named, place, rest);
    assert(xml =~= begun + (named + place + rest));
    lemma_starts_self(begun, named + place + rest);
}

proof fn lemma_straight_parts(
    id: int,
    name: Seq<char>,
    route: RouteEmuView,
    dashed: bool,
    arrow: bool,
)
    ensures
        straight_xml(id, name, route, dashed, arrow) == ("<p:cxnSp><p:nvCxnSpPr><p:cNvPr id=\""@
            + decimal(id)) + ("\" name=\""@ + xml_apos_text(name)
            + "\"/><p:cNvCxnSpPr/><p:nvPr/></p:nvCxnSpPr><p:spPr>"@) + mirrored_place(
            route.leftward,
            route.upward,
            route.frame.x as int,
            route.frame.y as int,
            route.across as int,
            route.down as int,
        ) + ("<a:prstGeom prst=\"straightConnector1\"><a:avLst/></a:prstGeom>"@ + outline(
            dashed,
            arrow,
        ) + "</p:spPr></p:cxnSp>"@),
{
    reveal_strlit("\"/><p:cNvCxnSpPr/><p:nvPr/></p:nvCxnSpPr><p:spPr><a:xfrm");
    reveal_strlit("\"/><p:cNvCxnSpPr/><p:nvPr/></p:nvCxnSpPr><p:spPr>");
    reveal_strlit("<a:xfrm");
    let j1 = "\"/><p:cNvCxnSpPr/><p:nvPr/></p:nvCxnSpPr><p:spPr>"@;
    let j2 = "<a:xfrm"@;
    assert(j1 + j2 =~= "\"/><p:cNvCxnSpPr/><p:nvPr/></p:nvCxnSpPr><p:spPr><a:xfrm"@);
    reveal_strlit("><a:off x=\"");
    reveal_strlit("<a:off x=\"");
    reveal_strlit(">");
    let k1 = ">"@;
    let k2 = "<a:off x=\""@;
    assert(k1 + k2 =~= "><a:off x=\""@);
    reveal_strlit("\"/></a:xfrm><a:prstGeom prst=\"straightConnector1\"><a:avLst/></a:prstGeom>");
    reveal_strlit("\"/></a:xfrm>");
    reveal_strlit("<a:prstGeom prst=\"straightConnector1\"><a:avLst/></a:prstGeom>");
    let l1 = "\"/></a:xfrm>"@;
    let l2 = "<a:prstGeom prst=\"straightConnector1\"><a:avLst/></a:prstGeom>"@;
    assert(l1 + l2
        =~= "\"/></a:xfrm><a:prstGeom prst=\"straightConnector1\"><a:avLst/></a:prstGeom>"@);
    lemma_regroup(
        "<p:cxnSp><p:nvCxnSpPr><p:cNvPr id=\""@ + decimal(id),
        j1,
        j2,
        if route.leftward {
            " flipH=\"1\""@
        } else {
            ""@
        },
        if route.upward {
            " flipV=\"1\""@
        } else {
            ""@
        },
        k1,
        k2,
        signed(route.frame.x as int),
        "\" y=\""@,
        signed(route.frame.y as int),
        "\"/><a:ext cx=\""@,
        signed(route.across as int),
        "\" cy=\""@,
        signed(route.down as int),
        l1,
        l2,
        outline(dashed, arrow),
        "</p:spPr></p:cxnSp>"@,
        "\" name=\""@,
        xml_apos_text(name),
    );
}

/// The same pieces in other groups.
proof fn lemma_regroup(
    a: Seq<char>,
    j1: Seq<char>,
    j2: Seq<char>,
    f: Seq<char>,
    g: Seq<char>,
    k1: Seq<char>,
    k2: Seq<char>,
    x: Seq<char>,
    s1: Seq<char>,
    y: Seq<char>,
    s2: Seq<char>,
    w: Seq<char>,
    s3: Seq<char>,
    h: Seq<char>,
    l1: Seq<char>,
    l2: Seq<char>,
    o: Seq<char>,
    e: Seq<char>,
    b1: Seq<char>,
    b2: Seq<char>,
)
    ensures
        a + b1 + b2 + (j1 + j2) + (f + g) + (k1 + k2) + x + s1 + y + s2 + w + s3 + h + (l1 + l2) + o
            + e == a + (b1 + b2 + j1) + (j2 + f + g + k1 + (k2 + x + s1 + y + s2 + w + s3 + h + l1))
            + (l2 + o + e),
{
    let left = a + b1 + b2 + (j1 + j2) + (f + g) + (k1 + k2) + x + s1 + y + s2 + w + s3 + h + (l1
        + l2) + o + e;
    let right = a + (b1 + b2 + j1) + (j2 + f + g + k1 + (k2 + x + s1 + y + s2 + w + s3 + h + l1)) + (
    l2 + o + e);
    assert(left =~= right);
}

/// How the line of a connector is written: dashed or not, and with a head at its end
/// or without one.
pub open spec fn written_line(dashed: bool, arrow: bool) -> Seq<char> {
    "<a:ln><a:solidFill><a:srgbClr val=\"000000\"/></a:solidFill>"@ + (if dashed {
        "<a:prstDash val=\"dash\"/>"@
    } else {
        ""@
    }) + (if arrow {
        "<a:tailEnd type=\"triangle\"/>"@
    } else {
        ""@
    }) + "</a:ln>"@
}

/// How a point that a connector visits is written.
pub open spec fn written_point(p: PointEmu, first: bool) -> Seq<char> {
    if first {
        "<a:moveTo><a:pt x=\""@ + signed(p.x as int) + "\" y=\""@ + signed(p.y as int)
            + "\"/></a:moveTo>"@
    } else {
        "<a:lnTo><a:pt x=\""@ + signed(p.x as int) + "\" y=\""@ + signed(p.y as int)
            + "\"/></a:lnTo>"@
    }
}

proof fn lemma_outline(dashed: bool, arrow: bool)
    ensures
        outline(dashed, arrow) == written_line(dashed, arrow),
{
    reveal_strlit("");
    assert(outline(dashed, arrow) =~= written_line(dashed, arrow));
}

proof fn lemma_point(p: PointEmu, first: bool)
    ensures
        ({
            let tag = if first {
                "moveTo"@
            } else {
                "lnTo"@
            };
            "<a:"@ + tag + "><a:pt x=\""@ + signed(p.x as int) + "\" y=\""@ + signed(p.y as int)
                + "\"/></a:"@ + tag + ">"@ == written_point(p, first)
        }),
{
    let tag = if first {
        "moveTo"@
    } else {
        "lnTo"@
    };
    reveal_strlit("<a:");
    reveal_strlit("moveTo");
    reveal_strlit("lnTo");
    reveal_strlit("><a:pt x=\"");
    reveal_strlit("\"/></a:");
    reveal_strlit(">");
    reveal_strlit("<a:moveTo><a:pt x=\"");
    reveal_strlit("\"/></a:moveTo>");
    reveal_strlit("<a:lnTo><a:pt x=\"");
    reveal_strlit("\"/></a:lnTo>");
    let (x, y) = (signed(p.x as int), signed(p.y as int));
    if first {
        assert("<a:"@ + tag + "><a:pt x=\""@ =~= "<a:moveTo><a:pt x=\""@);
        assert("\"/></a:"@ + tag + ">"@ =~= "\"/></a:moveTo>"@);
    } else {
        assert("<a:"@ + tag + "><a:pt x=\""@ =~= "<a:lnTo><a:pt x=\""@);
        assert("\"/></a:"@ + tag + ">"@ =~= "\"/></a:lnTo>"@);
    }
    lemma_point_pieces("<a:"@ + tag + "><a:pt x=\""@, x, "\" y=\""@, y, "\"/></a:"@, tag, ">"@);
}

proof fn lemma_point_pieces(
    a: Seq<char>,
    x: Seq<char>,
    b: Seq<char>,
    y: Seq<char>,
    c: Seq<char>,
    t: Seq<char>,
    d: Seq<char>,
)
    ensures
        a + x + b + y + c + t + d == a + x + b + y + (c + t + d),
{
    assert(a + x + b + y + c + t + d =~= a + x + b + y + (c + t + d));
}

/// The points from `i` on, as they are written.
pub open spec fn written_points(points: Seq<PointEmu>, n: int) -> Seq<char>
    decreases n,
{
    if n <= 0 {
        Seq::empty()
    } else {
        written_points(points, n - 1) + written_point(points[n - 1], n == 1)
    }
}

proof fn lemma_points(points: Seq<PointEmu>, n: int)
    ensures
        path_points(points, n) == written_points(points, n),
    decreases n,
{
    if n > 0 {
        lemma_points(points, n - 1);
        let p = points[n - 1];
        let tag = if n == 1 {
            "moveTo"@
        } else {
            "lnTo"@
        };
        lemma_point(p, n == 1);
        let before = path_points(points, n - 1);
        let (x, y) = (signed(p.x as int), signed(p.y as int));
        assert(before + "<a:"@ + tag + "><a:pt x=\""@ + x + "\" y=\""@ + y + "\"/></a:"@ + tag
            + ">"@ =~= before + ("<a:"@ + tag + "><a:pt x=\""@ + x + "\" y=\""@ + y
            + "\"/></a:"@ + tag + ">"@));
    }
}

proof fn lemma_points_held(points: Seq<PointEmu>, n: int, i: int)
    requires
        0 <= i < n,
    ensures
        i + 1 < n ==> holds(
            written_points(points, n),
            written_point(points[i], i == 0) + written_point(points[i + 1], false),
        ),
        holds(written_points(points, n), written_point(points[i], i == 0)),
    decreases n,
{
    let all = written_points(points, n);
    let before = written_points(points, n - 1);
    let last = written_point(points[n - 1], n == 1);
    if i + 1 < n {
        if i + 2 == n {
            let first = written_points(points, n - 2);
            let two = written_point(points[i], i == 0) + written_point(points[i + 1], false);
            assert(all =~= first + two + Seq::empty());
            lemma_holds(all, first, two, Seq::empty());
        } else {
            lemma_points_held(points, n - 1, i);
            lemma_holds_more(
                before,
                written_point(points[i], i == 0) + written_point(points[i + 1], false),
                last,
            );
        }
        lemma_points_held(points, n - 1, i);
        lemma_holds_more(before, written_point(points[i], i == 0), last);
    } else {
        assert(all =~= before + last + Seq::empty());
        lemma_holds(all, before, last, Seq::empty());
    }
}

/// A connector that bends visits every point of its route, in their order, within the
/// box around the route.
pub proof fn law_bent_connector_visits_its_points(
    id: int,
    name: Seq<char>,
    route: RouteEmuView,
    dashed: bool,
    arrow: bool,
    i: int,
)
    requires
        route.points.len() > 2,
        route.has_area,
        !collinear(route.points),
        0 <= i < route.points.len(),
    ensures
        ({
            let xml = shape_xml(id, ShapeView::Connector { name, route, dashed, arrow });
            &&& holds(xml, written_point(route.points[i], i == 0))
            &&& i + 1 < route.points.len() ==> holds(
                xml,
                written_point(route.points[i], i == 0) + written_point(route.points[i + 1], false),
            )
            &&& holds(xml, "<a:xfrm>"@ + placed(route.frame))
        }),
{
    let xml = bent_xml(id, name, route, dashed, arrow);
    let n = route.points.len() as int;
    lemma_points(route.points, n);
    lemma_points_held(route.points, n, i);
    let a = opening(id, name, route.frame)
        + "<a:custGeom><a:avLst/><a:gdLst/><a:ahLst/><a:cxnLst/><a:rect l=\"0\" t=\"0\" r=\"0\" b=\"0\"/><a:pathLst><a:path w=\""@
        + signed(route.frame.width as int) + "\" h=\""@ + signed(route.frame.height as int)
        + "\" fill=\"none\">"@;
    let p = path_points(route.points, n);
    let b = "</a:path></a:pathLst></a:custGeom><a:noFill/>"@ + outline(dashed, arrow)
        + "</p:spPr><p:txBody><a:bodyPr/><a:lstStyle/><a:p/></p:txBody></p:sp>"@;
    assert(xml =~= a + p + b);
    lemma_holds(xml, a, p, b);
    lemma_holds_trans(xml, p, written_point(route.points[i], i == 0));
    if i + 1 < n {
        lemma_holds_trans(
            xml,
            p,
            written_point(route.points[i], i == 0) + written_point(route.points[i + 1], false),
        );
    }
    lemma_opening(id, name, route.frame);
    let o = opening(id, name, route.frame);
    let o2 = "<a:custGeom><a:avLst/><a:gdLst/><a:ahLst/><a:cxnLst/><a:rect l=\"0\" t=\"0\" r=\"0\" b=\"0\"/><a:pathLst><a:path w=\""@
        + signed(route.frame.width as int) + "\" h=\""@ + signed(route.frame.height as int)
        + "\" fill=\"none\">"@;
    assert(xml =~= Seq::empty() + o + (o2 + p + b));
    lemma_holds(xml, Seq::empty(), o, o2 + p + b);
    lemma_holds_trans(xml, o, "<a:xfrm>"@ + placed(route.frame));
}

/// How the place of a shape is written.
pub open spec fn placed(r: RectEmu) -> Seq<char> {
    written_place(r.x as int, r.y as int, r.width as int, r.height as int)
}

proof fn lemma_opening(id: int, name: Seq<char>, rect: RectEmu)
    ensures
        holds(opening(id, name, rect), "<a:xfrm>"@ + placed(rect)),
        holds(opening(id, name, rect), "id=\""@ + decimal(id) + "\" name=\""@ + xml_apos_text(name)),
{
    reveal_strlit("\"/><p:cNvSpPr/><p:nvPr/></p:nvSpPr><p:spPr><a:xfrm><a:off x=\"");
    reveal_strlit("\"/><p:cNvSpPr/><p:nvPr/></p:nvSpPr><p:spPr>");
    reveal_strlit("<a:xfrm>");
    reveal_strlit("<a:off x=\"");
    reveal_strlit("<p:sp><p:nvSpPr><p:cNvPr id=\"");
    reveal_strlit("<p:sp><p:nvSpPr><p:cNvPr ");
    reveal_strlit("id=\"");
    let o = opening(id, name, rect);
    let j = "\"/><p:cNvSpPr/><p:nvPr/></p:nvSpPr><p:spPr>"@;
    assert(j + "<a:xfrm>"@ + "<a:off x=\""@
        =~= "\"/><p:cNvSpPr/><p:nvPr/></p:nvSpPr><p:spPr><a:xfrm><a:off x=\""@);
    assert("<p:sp><p:nvSpPr><p:cNvPr "@ + "id=\""@ =~= "<p:sp><p:nvSpPr><p:cNvPr id=\""@);
    lemma_opening_pieces(
        "<p:sp><p:nvSpPr><p:cNvPr "@,
        "id=\""@,
        decimal(id),
        "\" name=\""@,
        xml_apos_text(name),
        j,
        "<a:xfrm>"@,
        "<a:off x=\""@,
        signed(rect.x as int),
        "\" y=\""@,
        signed(rect.y as int),
        "\"/><a:ext cx=\""@,
        signed(rect.width as int),
        "\" cy=\""@,
        signed(rect.height as int),
        "\"/></a:xfrm>"@,
    );
}

proof fn lemma_opening_pieces(
    a: Seq<char>,
    b: Seq<char>,
    i: Seq<char>,
    c: Seq<char>,
    n: Seq<char>,
    j: Seq<char>,
    k: Seq<char>,
    l: Seq<char>,
    x: Seq<char>,
    s1: Seq<char>,
    y: Seq<char>,
    s2: Seq<char>,
    w: Seq<char>,
    s3: Seq<char>,
    h: Seq<char>,
    e: Seq<char>,
)
    ensures
        ({
            let o = (a + b) + i + c + n + (j + k + l) + x + s1 + y + s2 + w + s3 + h + e;
            &&& holds(o, k + (l + x + s1 + y + s2 + w + s3 + h + e))
            &&& holds(o, b + i + c + n)
        }),
{
    let o = (a + b) + i + c + n + (j + k + l) + x + s1 + y + s2 + w + s3 + h + e;
    let p = k + (l + x + s1 + y + s2 + w + s3 + h + e);
    let before = (a + b) + i + c + n + j;
    assert(o =~= before + p + Seq::empty());
    lemma_holds(o, before, p, Seq::empty());
    let q = b + i + c + n;
    let after = (j + k + l) + x + s1 + y + s2 + w + s3 + h + e;
    assert(o =~= a + q + after);
    lemma_holds(o, a, q, after);
}

proof fn lemma_box_shown(id: int, name: Seq<char>, rect: RectEmu, label: Seq<char>)
    ensures
        holds(box_xml(id, name, rect, label), "id=\""@ + decimal(id) + "\" name=\""@ + xml_apos_text(name)),
        holds(box_xml(id, name, rect, label), "<a:xfrm>"@ + placed(rect)),
        label.len() > 0 ==> holds(
            box_xml(id, name, rect, label),
            "<a:t>"@ + xml_apos_text(label) + "</a:t>"@,
        ),
{
    let xml = box_xml(id, name, rect, label);
    let o = opening(id, name, rect);
    let m = "<a:prstGeom prst=\"roundRect\"><a:avLst/></a:prstGeom><a:solidFill><a:srgbClr val=\"FFFFFF\"/></a:solidFill><a:ln><a:solidFill><a:srgbClr val=\"000000\"/></a:solidFill></a:ln></p:spPr><p:txBody><a:bodyPr anchor=\"ctr\"/><a:lstStyle/><a:p><a:pPr algn=\"ctr\"/>"@;
    let e = "</a:p></p:txBody></p:sp>"@;
    lemma_framed(xml, o, m + run(label) + e, id, name, rect);
    if label.len() > 0 {
        reveal_strlit("<a:r><a:t>");
        reveal_strlit("<a:r>");
        reveal_strlit("<a:t>");
        reveal_strlit("</a:t></a:r>");
        reveal_strlit("</a:t>");
        reveal_strlit("</a:r>");
        assert("<a:r>"@ + "<a:t>"@ =~= "<a:r><a:t>"@);
        assert("</a:t>"@ + "</a:r>"@ =~= "</a:t></a:r>"@);
        lemma_text_held(
            xml,
            o + m + "<a:r>"@,
            "<a:t>"@,
            xml_apos_text(label),
            "</a:t>"@,
            "</a:r>"@ + e,
            o + m,
            "<a:r>"@,
            "</a:r>"@,
            e,
        );
    }
}

proof fn lemma_label_shown(id: int, name: Seq<char>, rect: RectEmu, label: Seq<char>)
    ensures
        holds(label_xml(id, name, rect, label), "id=\""@ + decimal(id) + "\" name=\""@ + xml_apos_text(name)),
        holds(label_xml(id, name, rect, label), "<a:xfrm>"@ + placed(rect)),
        holds(label_xml(id, name, rect, label), "<a:t>"@ + xml_apos_text(label) + "</a:t>"@),
{
    let xml = label_xml(id, name, rect, label);
    let o = opening(id, name, rect);
    let l1 = "<a:prstGeom prst=\"rect\"><a:avLst/></a:prstGeom><a:solidFill><a:srgbClr val=\"FFFFFF\"/></a:solidFill><a:ln><a:noFill/></a:ln></p:spPr><p:txBody><a:bodyPr wrap=\"none\" lIns=\"0\" tIns=\"0\" rIns=\"0\" bIns=\"0\" anchor=\"ctr\"/><a:lstStyle/><a:p><a:pPr algn=\"ctr\"/><a:r><a:rPr sz=\"1200\"/><a:t>"@;
    let l2 = "</a:t></a:r></a:p></p:txBody></p:sp>"@;
    lemma_framed(xml, o, l1 + xml_apos_text(label) + l2, id, name, rect);
    lemma_label_literals();
    let m = l1.take(l1.len() - 5);
    let e = l2.skip(6);
    assert(l1 =~= m + "<a:t>"@);
    assert(l2 =~= "</a:t>"@ + e);
    lemma_text_held(
        xml,
        o + m,
        "<a:t>"@,
        xml_apos_text(label),
        "</a:t>"@,
        e,
        o,
        m,
        Seq::empty(),
        e,
    );
}

proof fn lemma_ellipse_shown(id: int, name: Seq<char>, rect: RectEmu, filled: bool)
    ensures
        holds(ellipse_xml(id, name, rect, filled), "id=\""@ + decimal(id) + "\" name=\""@ + xml_apos_text(name)),
        holds(ellipse_xml(id, name, rect, filled), "<a:xfrm>"@ + placed(rect)),
        holds(
            ellipse_xml(id, name, rect, filled),
            "<a:prstGeom prst=\"ellipse\"><a:avLst/></a:prstGeom>"@ + (if filled {
                "<a:solidFill><a:srgbClr val=\"000000\"/></a:solidFill>"@
            } else {
                "<a:noFill/>"@
            }),
        ),
{
    let xml = ellipse_xml(id, name, rect, filled);
    let o = opening(id, name, rect);
    let g = "<a:prstGeom prst=\"ellipse\"><a:avLst/></a:prstGeom>"@;
    let f = if filled {
        "<a:solidFill><a:srgbClr val=\"000000\"/></a:solidFill>"@
    } else {
        "<a:noFill/>"@
    };
    let e = "<a:ln><a:solidFill><a:srgbClr val=\"000000\"/></a:solidFill></a:ln></p:spPr><p:txBody><a:bodyPr/><a:lstStyle/><a:p/></p:txBody></p:sp>"@;
    lemma_framed(xml, o, g + f + e, id, name, rect);
    assert(xml =~= o + (g + f) + e);
    lemma_holds(xml, o, g + f, e);
}

proof fn lemma_line_shown(id: int, name: Seq<char>, route: RouteEmuView, dashed: bool, arrow: bool)
    ensures
        route.points.len() > 0 ==> holds(
            connector_xml(id, name, route, dashed, arrow),
            written_line(dashed, arrow),
        ),
{
    let xml = connector_xml(id, name, route, dashed, arrow);
    lemma_outline(dashed, arrow);
    if route.points.len() > 0 {
        if bends(route) {
            let n = route.points.len() as int;
            let a = opening(id, name, route.frame)
                + "<a:custGeom><a:avLst/><a:gdLst/><a:ahLst/><a:cxnLst/><a:rect l=\"0\" t=\"0\" r=\"0\" b=\"0\"/><a:pathLst><a:path w=\""@
                + signed(route.frame.width as int) + "\" h=\""@ + signed(
                route.frame.height as int,
            ) + "\" fill=\"none\">"@ + path_points(route.points, n)
                + "</a:path></a:pathLst></a:custGeom><a:noFill/>"@;
            lemma_holds(
                xml,
                a,
                outline(dashed, arrow),
                "</p:spPr><p:txBody><a:bodyPr/><a:lstStyle/><a:p/></p:txBody></p:sp>"@,
            );
        } else {
            lemma_straight_parts(id, name, route, dashed, arrow);
            let e = "<a:prstGeom prst=\"straightConnector1\"><a:avLst/></a:prstGeom>"@;
            let all = e + outline(dashed, arrow) + "</p:spPr></p:cxnSp>"@;
            let before = xml.take(xml.len() - all.len());
            assert(xml =~= before + all + Seq::empty());
            lemma_holds(xml, before, all, Seq::empty());
            lemma_holds(all, e, outline(dashed, arrow), "</p:spPr></p:cxnSp>"@);
            lemma_holds_trans(xml, all, outline(dashed, arrow));
        }
    }
}

/// Every shape shows its id, its name and its place; a box and a label show their
/// text, where there is any; and every connector is drawn dashed exactly if it is to
/// be, with a head at its end exactly if it has one.
pub proof fn law_shapes_show_what_they_hold(id: int, shape: ShapeView)
    ensures
        ({
            let xml = shape_xml(id, shape);
            match shape {
                ShapeView::Box { name, rect, label } => {
                    &&& holds(xml, "id=\""@ + decimal(id) + "\" name=\""@ + xml_apos_text(name))
                    &&& holds(xml, "<a:xfrm>"@ + placed(rect))
                    &&& label.len() > 0 ==> holds(
                        xml,
                        "<a:t>"@ + xml_apos_text(label) + "</a:t>"@,
                    )
                },
                ShapeView::Label { name, rect, label } => {
                    &&& holds(xml, "id=\""@ + decimal(id) + "\" name=\""@ + xml_apos_text(name))
                    &&& holds(xml, "<a:xfrm>"@ + placed(rect))
                    &&& holds(xml, "<a:t>"@ + xml_apos_text(label) + "</a:t>"@)
                },
                ShapeView::Ellipse { name, rect, filled } => {
                    &&& holds(xml, "id=\""@ + decimal(id) + "\" name=\""@ + xml_apos_text(name))
                    &&& holds(xml, "<a:xfrm>"@ + placed(rect))
                    &&& holds(
                        xml,
                        "<a:prstGeom prst=\"ellipse\"><a:avLst/></a:prstGeom>"@ + (if filled {
                            "<a:solidFill><a:srgbClr val=\"000000\"/></a:solidFill>"@
                        } else {
                            "<a:noFill/>"@
                        }),
                    )
                },
                ShapeView::Connector { name, route, dashed, arrow } => route.points.len() > 0
                    ==> holds(xml, written_line(dashed, arrow)),
            }
        }),
{
    match shape {
        ShapeView::Box { name, rect, label } => {
            lemma_box_shown(id, name, rect, label);
        },
        ShapeView::Label { name, rect, label } => {
            lemma_label_shown(id, name, rect, label);
        },
        ShapeView::Ellipse { name, rect, filled } => {
            lemma_ellipse_shown(id, name, rect, filled);
        },
        ShapeView::Connector { name, route, dashed, arrow } => {
            lemma_line_shown(id, name, route, dashed, arrow);
        },
    }
}

proof fn lemma_framed(
    xml: Seq<char>,
    o: Seq<char>,
    rest: Seq<char>,
    id: int,
    name: Seq<char>,
    rect: RectEmu,
)
    requires
        o == opening(id, name, rect),
        xml =~= o + rest,
    ensures
        holds(xml, "id=\""@ + decimal(id) + "\" name=\""@ + xml_apos_text(name)),
        holds(xml, "<a:xfrm>"@ + placed(rect)),
{
    lemma_opening(id, name, rect);
    lemma_holds_more(o, "id=\""@ + decimal(id) + "\" name=\""@ + xml_apos_text(name), rest);
    lemma_holds_more(o, "<a:xfrm>"@ + placed(rect), rest);
}

proof fn lemma_text_held(
    xml: Seq<char>,
    before: Seq<char>,
    open: Seq<char>,
    text: Seq<char>,
    close: Seq<char>,
    after: Seq<char>,
    b1: Seq<char>,
    b2: Seq<char>,
    a1: Seq<char>,
    a2: Seq<char>,
)
    requires
        before == b1 + b2,
        after =~= a1 + a2,
        xml =~= b1 + ((b2 + open) + text + (close + a1)) + a2,
    ensures
        holds(xml, open + text + close),
{
    assert(xml =~= before + (open + text + close) + after);
    lemma_holds(xml, before, open + text + close, after);
}

proof fn lemma_label_literals()
    ensures
        ({
            let l1 = "<a:prstGeom prst=\"rect\"><a:avLst/></a:prstGeom><a:solidFill><a:srgbClr val=\"FFFFFF\"/></a:solidFill><a:ln><a:noFill/></a:ln></p:spPr><p:txBody><a:bodyPr wrap=\"none\" lIns=\"0\" tIns=\"0\" rIns=\"0\" bIns=\"0\" anchor=\"ctr\"/><a:lstStyle/><a:p><a:pPr algn=\"ctr\"/><a:r><a:rPr sz=\"1200\"/><a:t>"@;
            let l2 = "</a:t></a:r></a:p></p:txBody></p:sp>"@;
            &&& l1.len() >= 5 && l1.skip(l1.len() - 5) == "<a:t>"@
            &&& l2.len() >= 6 && l2.take(6) == "</a:t>"@
            &&& "<a:t>"@.len() == 5
            &&& "</a:t>"@.len() == 6
        }),
{
    reveal_strlit(
        "<a:prstGeom prst=\"rect\"><a:avLst/></a:prstGeom><a:solidFill><a:srgbClr val=\"FFFFFF\"/></a:solidFill><a:ln><a:noFill/></a:ln></p:spPr><p:txBody><a:bodyPr wrap=\"none\" lIns=\"0\" tIns=\"0\" rIns=\"0\" bIns=\"0\" anchor=\"ctr\"/><a:lstStyle/><a:p><a:pPr algn=\"ctr\"/><a:r><a:rPr sz=\"1200\"/><a:t>",
    );
    reveal_strlit("</a:t></a:r></a:p></p:txBody></p:sp>");
    reveal_strlit("<a:t>");
    reveal_strlit("</a:t>");
    let l1 = "<a:prstGeom prst=\"rect\"><a:avLst/></a:prstGeom><a:solidFill><a:srgbClr val=\"FFFFFF\"/></a:solidFill><a:ln><a:noFill/></a:ln></p:spPr><p:txBody><a:bodyPr wrap=\"none\" lIns=\"0\" tIns=\"0\" rIns=\"0\" bIns=\"0\" anchor=\"ctr\"/><a:lstStyle/><a:p><a:pPr algn=\"ctr\"/><a:r><a:rPr sz=\"1200\"/><a:t>"@;
    let l2 = "</a:t></a:r></a:p></p:txBody></p:sp>"@;
    assert(l1.skip(l1.len() - 5) =~= "<a:t>"@);
    assert(l2.take(6) =~= "</a:t>"@);
}

// ---------------------------------------------------------------------------
// Slides
// ---------------------------------------------------------------------------

/// The slide of a list of shapes holds each of them, and no two have the same id.
pub proof fn law_slide_holds_its_shapes(shapes: Seq<ShapeView>, n: int, i: int)
    requires
        0 <= i < n <= shapes.len(),
    ensures
        holds(shapes_xml(shapes, n), shape_xml(i + 2, shapes[i])),
        holds(slide_text(shapes_xml(shapes, n)), shape_xml(i + 2, shapes[i])),
    decreases n,
{
    let all = shapes_xml(shapes, n);
    let before = shapes_xml(shapes, n - 1);
    let last = shape_xml(n + 1, shapes[n - 1]);
    if i == n - 1 {
        assert(all =~= before + last + Seq::empty());
        lemma_holds(all, before, last, Seq::empty());
    } else {
        law_slide_holds_its_shapes(shapes, n - 1, i);
        lemma_holds_more(before, shape_xml(i + 2, shapes[i]), last);
    }
    let slide = slide_text(all);
    let a = slide.take(slide.len() - all.len() - slide_end().len());
    assert(slide =~= a + all + slide_end());
    lemma_holds(slide, a, all, slide_end());
    lemma_holds_trans(slide, all, shape_xml(i + 2, shapes[i]));
}

spec fn slide_end() -> Seq<char> {
    "</p:spTree></p:cSld><p:clrMapOvr><a:masterClrMapping/></p:clrMapOvr></p:sld>"@
}

/// Whether the shape at `at` is a box in the given place with the given text.
pub open spec fn boxed(shapes: Seq<ShapeView>, at: int, rect: RectEmu, label: Seq<char>) -> bool {
    0 <= at < shapes.len() && (shapes[at] matches ShapeView::Box { rect: r, label: l, .. } && r
        == rect && l == label)
}

/// Whether the shapes show a connection: a connector with its route, dashed and with a
/// head as given, and behind it the label where there is one and a place for it.
pub open spec fn connected(
    shapes: Seq<ShapeView>,
    path: PathEmuView,
    label: Option<Seq<char>>,
    dashed: bool,
    arrow: bool,
    at: int,
) -> bool {
    &&& 0 <= at < shapes.len()
    &&& shapes[at] matches ShapeView::Connector { route, dashed: d, arrow: a, .. } && route
        == path.route && d == dashed && a == arrow
    &&& label matches Some(l) ==> (path.label_box matches Some(b) ==> at + 1 < shapes.len() && (
    shapes[at + 1] matches ShapeView::Label { rect, label: shown, .. } && rect == b && shown == l))
}

/// Whether the shapes show a connection somewhere.
pub open spec fn shows_connection(
    shapes: Seq<ShapeView>,
    path: PathEmuView,
    label: Option<Seq<char>>,
    dashed: bool,
    arrow: bool,
) -> bool {
    exists|at: int| connected(shapes, path, label, dashed, arrow, at)
}

/// Whether the shapes of `a` are the first ones of `b`.
spec fn begun(a: Seq<ShapeView>, b: Seq<ShapeView>) -> bool {
    a.len() <= b.len() && forall|i: int| 0 <= i < a.len() ==> #[trigger] b[i] == a[i]
}

proof fn lemma_connection(
    out: Seq<ShapeView>,
    name: Seq<char>,
    path: PathEmuView,
    label: Option<Seq<char>>,
    dashed: bool,
    arrow: bool,
    all: Seq<ShapeView>,
)
    requires
        begun(connection(out, name, path, label, dashed, arrow), all),
    ensures
        begun(out, all),
        shows_connection(all, path, label, dashed, arrow),
{
    let next = connection(out, name, path, label, dashed, arrow);
    let n = out.len() as int;
    assert(all[n] == next[n]);
    if label is Some && path.label_box is Some {
        assert(all[n + 1] == next[n + 1]);
    }
    assert(connected(all, path, label, dashed, arrow, n));
    assert forall|i: int| 0 <= i < out.len() implies #[trigger] all[i] == out[i] by {
        assert(next[i] == out[i]);
    }
}

proof fn lemma_edges_connected(
    out: Seq<ShapeView>,
    g: GraphLayoutView<RectEmu, PathEmuView>,
    i: int,
)
    requires
        0 <= i,
    ensures
        edges(out, g, i) matches Ok(all) ==> begun(out, all) && forall|j: int|
            #![trigger g.edges[j]]
            i <= j < g.edges.len() ==> shows_connection(all,
                    g.edges[j].path,
                    g.edges[j].label,
                    false,
                    g.edges[j].arrow != ArrowType::Plain),
    decreases g.edges.len() - i,
{
    if i < g.edges.len() {
        let e = g.edges[i];
        let arrow = e.arrow != ArrowType::Plain;
        let next = connection(out, "Edge "@ + decimal(i), e.path, e.label, false, arrow);
        lemma_edges_connected(next, g, i + 1);
        if let Ok(all) = edges(out, g, i) {
            lemma_connection(out, "Edge "@ + decimal(i), e.path, e.label, false, arrow, all);
        }
    }
}

proof fn lemma_transitions_connected(
    out: Seq<ShapeView>,
    s: StateLayoutView<RectEmu, PathEmuView>,
    i: int,
)
    requires
        0 <= i,
    ensures
        transitions(out, s, i) matches Ok(all) ==> begun(out, all) && forall|j: int|
            #![trigger s.transitions[j]]
            i <= j < s.transitions.len() ==> shows_connection(
                all,
                s.transitions[j].path,
                s.transitions[j].label,
                false,
                true,
            ),
    decreases s.transitions.len() - i,
{
    if i < s.transitions.len() {
        let t = s.transitions[i];
        let name = "Transition "@ + decimal(i);
        lemma_transitions_connected(
            connection(out, name, t.path, t.label, false, true),
            s,
            i + 1,
        );
        if let Ok(all) = transitions(out, s, i) {
            lemma_connection(out, name, t.path, t.label, false, true, all);
        }
    }
}

proof fn lemma_messages_connected(
    out: Seq<ShapeView>,
    s: SequenceLayoutView<HeaderEmuView, PathEmuView>,
    i: int,
)
    requires
        0 <= i,
    ensures
        messages(out, s, i) matches Ok(all) ==> begun(out, all) && forall|j: int|
            #![trigger s.messages[j]]
            i <= j < s.messages.len() ==> shows_connection(all,
                    s.messages[j].path,
                    s.messages[j].label,
                    s.messages[j].line == LineStyle::Dashed,
                    s.messages[j].arrow != ArrowType::Plain),
    decreases s.messages.len() - i,
{
    if i < s.messages.len() {
        let m = s.messages[i];
        let name = "Message "@ + decimal(i);
        let dashed = m.line == LineStyle::Dashed;
        let arrow = m.arrow != ArrowType::Plain;
        lemma_messages_connected(
            connection(out, name, m.path, m.label, dashed, arrow),
            s,
            i + 1,
        );
        if let Ok(all) = messages(out, s, i) {
            lemma_connection(out, name, m.path, m.label, dashed, arrow, all);
        }
    }
}

proof fn lemma_node_boxes(ns: Seq<NodeLayoutView<RectEmu>>, n: int, i: int)
    requires
        0 <= n,
    ensures
        nodes(ns, n).len() == n,
        0 <= i < n ==> (nodes(ns, n)[i] matches ShapeView::Box { rect, label, .. } && rect
            == ns[i].rect && label == ns[i].label),
    decreases n,
{
    if n > 0 {
        lemma_node_boxes(ns, n - 1, i);
    }
}

proof fn lemma_state_boxes(ss: Seq<StateBoxView<RectEmu>>, n: int, i: int)
    requires
        0 <= n,
    ensures
        states(ss, n).len() == n,
        0 <= i < n ==> (states(ss, n)[i] matches ShapeView::Box { rect, label, .. } && rect
            == ss[i].rect && label == ss[i].label),
    decreases n,
{
    if n > 0 {
        lemma_state_boxes(ss, n - 1, i);
    }
}

proof fn lemma_headers(ps: Seq<ParticipantLayoutView<HeaderEmuView>>, n: int, i: int)
    requires
        0 <= n,
    ensures
        participants(ps, n).len() == 2 * n,
        0 <= i < n ==> (participants(ps, n)[2 * i] matches ShapeView::Box { rect, label, .. } && rect
            == ps[i].place.header && label == ps[i].label),
        0 <= i < n ==> (participants(ps, n)[2 * i + 1] matches ShapeView::Connector {
            route,
            dashed,
            arrow,
            ..
        } && route == ps[i].place.lifeline && dashed && !arrow),
    decreases n,
{
    if n > 0 {
        lemma_headers(ps, n - 1, i);
    }
}

/// The slide of a graph shows every node as a box in its place with its label, and
/// every edge as a connector along its route, with a head exactly if it has one, and
/// with its label in the place for it.
pub proof fn law_graph_slide(g: GraphLayoutView<RectEmu, PathEmuView>)
    ensures
        layout_slide(SemanticLayoutView::Graph(g)) matches Ok(all) ==> {
            &&& forall|i: int|
                #![trigger g.nodes[i]]
                0 <= i < g.nodes.len() ==> boxed(all, i, g.nodes[i].rect, g.nodes[i].label)
            &&& forall|j: int|
                #![trigger g.edges[j]]
                0 <= j < g.edges.len() ==> shows_connection(all,
                        g.edges[j].path,
                        g.edges[j].label,
                        false,
                        g.edges[j].arrow != ArrowType::Plain)
        },
{
    let boxes = nodes(g.nodes, g.nodes.len() as int);
    lemma_edges_connected(boxes, g, 0);
    if let Ok(all) = graph_slide(g) {
        assert forall|i: int| #![trigger g.nodes[i]] 0 <= i < g.nodes.len() implies boxed(
            all,
            i,
            g.nodes[i].rect,
            g.nodes[i].label,
        ) by {
            lemma_node_boxes(g.nodes, g.nodes.len() as int, i);
            assert(all[i] == boxes[i]);
        }
    }
}

/// The slide of a state diagram shows every state as a box in its place with its
/// label, the initial pseudostate as a dot, the final one as a ring with a dot in it,
/// and every transition as a connector along its route, with a head, and with its
/// label in the place for it.
pub proof fn law_state_slide(s: StateLayoutView<RectEmu, PathEmuView>)
    ensures
        layout_slide(SemanticLayoutView::State(s)) matches Ok(all) ==> {
            let n = s.states.len() as int;
            let k: int = if s.initial is Some {
                n + 1
            } else {
                n
            };
            &&& forall|i: int|
                #![trigger s.states[i]]
                0 <= i < s.states.len() ==> boxed(all, i, s.states[i].rect, s.states[i].label)
            &&& s.initial matches Some(r) ==> n < all.len() && (all[n] matches ShapeView::Ellipse {
                rect,
                filled,
                ..
            } && rect == r && filled)
            &&& s.final_state matches Some(f) ==> k + 1 < all.len() && (
            all[k] matches ShapeView::Ellipse { rect, filled, .. } && rect == f.outer && !filled)
                && (all[k + 1] matches ShapeView::Ellipse { rect, filled, .. } && rect == f.inner
                && filled)
            &&& forall|j: int|
                #![trigger s.transitions[j]]
                0 <= j < s.transitions.len() ==> shows_connection(
                    all,
                    s.transitions[j].path,
                    s.transitions[j].label,
                    false,
                    true,
                )
        },
{
    let n = s.states.len() as int;
    let boxes = states(s.states, n);
    let out = pseudostates(boxes, s);
    lemma_transitions_connected(out, s, 0);
    lemma_state_boxes(s.states, n, 0);
    let k: int = if s.initial is Some {
        n + 1
    } else {
        n
    };
    if let Ok(all) = state_slide(s) {
        assert forall|i: int| #![trigger s.states[i]] 0 <= i < s.states.len() implies boxed(
            all,
            i,
            s.states[i].rect,
            s.states[i].label,
        ) by {
            lemma_state_boxes(s.states, n, i);
            assert(out[i] == boxes[i]);
            assert(all[i] == out[i]);
        }
        if let Some(r) = s.initial {
            assert(out[n] == ShapeView::Ellipse { name: "Initial"@, rect: r, filled: true });
            assert(all[n] == out[n]);
        }
        if let Some(f) = s.final_state {
            assert(out[k] == ShapeView::Ellipse { name: "Final"@, rect: f.outer, filled: false });
            assert(out[k + 1] == ShapeView::Ellipse {
                name: "Final inner"@,
                rect: f.inner,
                filled: true,
            });
            assert(all[k] == out[k]);
            assert(all[k + 1] == out[k + 1]);
        }
    }
}

/// The slide of a sequence shows every participant as a box in its place with its
/// label, and a dashed lifeline without a head below it, and every message as a
/// connector along its route, dashed exactly if it is, with a head exactly if it has
/// one, and with its label in the place for it.
pub proof fn law_sequence_slide(s: SequenceLayoutView<HeaderEmuView, PathEmuView>)
    ensures
        layout_slide(SemanticLayoutView::Sequence(s)) matches Ok(all) ==> {
            &&& forall|i: int|
                #![trigger s.participants[i]]
                0 <= i < s.participants.len() ==> 2 * i + 1 < all.len() && (
                all[2 * i] matches ShapeView::Box { rect, label, .. } && rect
                    == s.participants[i].place.header && label == s.participants[i].label) && (
                all[2 * i + 1] matches ShapeView::Connector { route, dashed, arrow, .. } && route
                    == s.participants[i].place.lifeline && dashed && !arrow)
            &&& forall|j: int|
                #![trigger s.messages[j]]
                0 <= j < s.messages.len() ==> shows_connection(all,
                        s.messages[j].path,
                        s.messages[j].label,
                        s.messages[j].line == LineStyle::Dashed,
                        s.messages[j].arrow != ArrowType::Plain)
        },
{
    let heads = participants(s.participants, s.participants.len() as int);
    lemma_messages_connected(heads, s, 0);
    if let Ok(all) = sequence_slide(s) {
        assert forall|i: int| #![trigger s.participants[i]] 0 <= i < s.participants.len() implies 2
            * i + 1 < all.len() && (all[2 * i] matches ShapeView::Box { rect, label, .. } && rect
            == s.participants[i].place.header && label == s.participants[i].label) && (all[2 * i
            + 1] matches ShapeView::Connector { route, dashed, arrow, .. } && route
            == s.participants[i].place.lifeline && dashed && !arrow) by {
            lemma_headers(s.participants, s.participants.len() as int, i);
            assert(all[2 * i] == heads[2 * i]);
            assert(all[2 * i + 1] == heads[2 * i + 1]);
        }
    }
}

/// A presentation is an archive that holds the slide with the shapes of the layout.
pub proof fn law_presentation_holds_its_slide(
    layout: SemanticLayoutView<RectEmu, PathEmuView, HeaderEmuView, PathEmuView>,
    i: int,
)
    ensures
        match layout_slide(layout) {
            Ok(shapes) => exists|all: Seq<Stored>, k: int, slide: Seq<char>|
                #![trigger archive(all), part(all[k].name, slide)]
                presentation(layout) == Ok::<Seq<u8>, RenderErrorView>(archive(all)) && 0 <= k
                    < all.len() && all[k].name == "ppt/slides/slide1.xml"@ && all[k].data
                    == vstd::utf8::encode_utf8(slide) && (0 <= i < shapes.len() ==> holds(
                    slide,
                    shape_xml(i + 2, shapes[i]),
                )),
            Err(e) => presentation(layout) == Err::<Seq<u8>, RenderErrorView>(e),
        },
{
    if let Ok(shapes) = layout_slide(layout) {
        let slide = slide_text(shapes_xml(shapes, shapes.len() as int));
        let all = parts(slide);
        if 0 <= i < shapes.len() {
            law_slide_holds_its_shapes(shapes, shapes.len() as int, i);
        }
        assert(all[11] == part("ppt/slides/slide1.xml"@, slide));
        assert(all[11] == part(all[11].name, slide));
        assert(presentation(layout) == Ok::<Seq<u8>, RenderErrorView>(archive(all)));
    }
}

} // verus!
