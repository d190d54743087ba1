//! The shapes on a slide.
use crate::escape::{escape_xml_apos, xml_apos_text};
use crate::text::{concat, concat3, decimal, push_signed, push_wide, signed};
use vstd::prelude::*;

verus! {

// ---------------------------------------------------------------------------
// Coordinates, in EMU
// ---------------------------------------------------------------------------

/// Where a shape lies.
#[derive(Debug, Clone, Copy, PartialEq, Eq, Structural)]
pub struct RectEmu {
    /// The left side.
    pub x: i64,
    /// The upper side.
    pub y: i64,
    /// The width.
    pub width: i64,
    /// The height.
    pub height: i64,
}

impl View for RectEmu {
    type V = RectEmu;

    open spec fn view(&self) -> RectEmu {
        *self
    }
}

/// A point of a route, counted from the upper left corner of the box around the
/// route.
#[derive(Debug, Clone, Copy, PartialEq, Eq, Structural)]
pub struct PointEmu {
    /// How far to the right it is.
    pub x: i64,
    /// How far down it is.
    pub y: i64,
}

/// How a connector runs.
#[derive(Debug, Clone, PartialEq, Eq)]
pub struct RouteEmu {
    /// The points it goes through.
    pub points: Vec<PointEmu>,
    /// The box around it.
    pub frame: RectEmu,
    /// Whether that box has any width and any height, before rounding.
    pub has_area: bool,
    /// How far its ends are apart, across.
    pub across: i64,
    /// How far its ends are apart, down.
    pub down: i64,
    /// Whether it ends to the left of where it starts.
    pub leftward: bool,
    /// Whether it ends above where it starts.
    pub upward: bool,
}

/// The model of [`RouteEmu`].
#[verifier::ext_equal]
pub struct RouteEmuView {
    pub points: Seq<PointEmu>,
    pub frame: RectEmu,
    pub has_area: bool,
    pub across: i64,
    pub down: i64,
    pub leftward: bool,
    pub upward: bool,
}

impl View for RouteEmu {
    type V = RouteEmuView;

    open spec fn view(&self) -> RouteEmuView {
        RouteEmuView {
            points: self.points@,
            frame: self.frame,
            has_area: self.has_area,
            across: self.across,
            down: self.down,
            leftward: self.leftward,
            upward: self.upward,
        }
    }
}

// ---------------------------------------------------------------------------
// What a shape is
// ---------------------------------------------------------------------------

/// A shape.
#[verifier::ext_equal]
pub enum ShapeView {
    /// A rounded rectangle with a text.
    Box { name: Seq<char>, rect: RectEmu, label: Seq<char> },
    /// An ellipse: a black dot, or a ring.
    Ellipse { name: Seq<char>, rect: RectEmu, filled: bool },
    /// A connector.
    Connector { name: Seq<char>, route: RouteEmuView, dashed: bool, arrow: bool },
    /// A text on white ground.
    Label { name: Seq<char>, rect: RectEmu, label: Seq<char> },
}

/// The opening of a shape, up to its place.
pub open spec fn opening(id: int, name: Seq<char>, rect: RectEmu) -> Seq<char> {
    "<p:sp><p:nvSpPr><p:cNvPr id=\""@ + decimal(id) + "\" name=\""@ + xml_apos_text(name)
        + "\"/><p:cNvSpPr/><p:nvPr/></p:nvSpPr><p:spPr><a:xfrm><a:off x=\""@ + signed(
        rect.x as int,
    ) + "\" y=\""@ + signed(rect.y as int) + "\"/><a:ext cx=\""@ + signed(rect.width as int)
        + "\" cy=\""@ + signed(rect.height as int) + "\"/></a:xfrm>"@
}

/// The text of a box.
pub open spec fn run(label: Seq<char>) -> Seq<char> {
    if label.len() == 0 {
        Seq::empty()
    } else {
        "<a:r><a:t>"@ + xml_apos_text(label) + "</a:t></a:r>"@
    }
}

/// A rounded rectangle with a text.
pub open spec fn box_xml(id: int, name: Seq<char>, rect: RectEmu, label: Seq<char>) -> Seq<char> {
    opening(id, name, rect)
        + "<a:prstGeom prst=\"roundRect\"><a:avLst/></a:prstGeom><a:solidFill><a:srgbClr val=\"FFFFFF\"/></a:solidFill><a:ln><a:solidFill><a:srgbClr val=\"000000\"/></a:solidFill></a:ln></p:spPr><p:txBody><a:bodyPr anchor=\"ctr\"/><a:lstStyle/><a:p><a:pPr algn=\"ctr\"/>"@
        + run(label) + "</a:p></p:txBody></p:sp>"@
}

/// An ellipse.
pub open spec fn ellipse_xml(id: int, name: Seq<char>, rect: RectEmu, filled: bool) -> Seq<char> {
    opening(id, name, rect) + "<a:prstGeom prst=\"ellipse\"><a:avLst/></a:prstGeom>"@ + (
    if filled {
        "<a:solidFill><a:srgbClr val=\"000000\"/></a:solidFill>"@
    } else {
        "<a:noFill/>"@
    })
        + "<a:ln><a:solidFill><a:srgbClr val=\"000000\"/></a:solidFill></a:ln></p:spPr><p:txBody><a:bodyPr/><a:lstStyle/><a:p/></p:txBody></p:sp>"@
}

/// A text on white ground.
pub open spec fn label_xml(id: int, name: Seq<char>, rect: RectEmu, label: Seq<char>) -> Seq<char> {
    opening(id, name, rect)
        + "<a:prstGeom prst=\"rect\"><a:avLst/></a:prstGeom><a:solidFill><a:srgbClr val=\"FFFFFF\"/></a:solidFill><a:ln><a:noFill/></a:ln></p:spPr><p:txBody><a:bodyPr wrap=\"none\" lIns=\"0\" tIns=\"0\" rIns=\"0\" bIns=\"0\" anchor=\"ctr\"/><a:lstStyle/><a:p><a:pPr algn=\"ctr\"/><a:r><a:rPr sz=\"1200\"/><a:t>"@
        + xml_apos_text(label) + "</a:t></a:r></a:p></p:txBody></p:sp>"@
}

/// How the line of a connector is drawn.
pub open spec fn outline(dashed: bool, arrow: bool) -> Seq<char> {
    let plain = "<a:ln><a:solidFill><a:srgbClr val=\"000000\"/></a:solidFill>"@;
    let lined = if dashed {
        plain + "<a:prstDash val=\"dash\"/>"@
    } else {
        plain
    };
    let headed = if arrow {
        lined + "<a:tailEnd type=\"triangle\"/>"@
    } else {
        lined
    };
    headed + "</a:ln>"@
}

/// Whether `q` and `r` lie on one line through `p`.
pub open spec fn in_line(p: PointEmu, q: PointEmu, r: PointEmu) -> bool {
    (q.x - p.x) * (r.y - p.y) == (q.y - p.y) * (r.x - p.x)
}

/// Whether all points lie on one line: any two of them do, seen from the first.
pub open spec fn collinear(points: Seq<PointEmu>) -> bool {
    forall|j: int, k: int|
        0 <= j < points.len() && 0 <= k < points.len() ==> in_line(
            points[0],
            #[trigger] points[j],
            #[trigger] points[k],
        )
}

/// Whether a connector bends: it has points between its ends that are off the
/// line through them, and the box around it has any width and any height.
pub open spec fn bends(route: RouteEmuView) -> bool {
    route.points.len() > 2 && route.has_area && !collinear(route.points)
}

/// The first `n` points of a path.
pub open spec fn path_points(points: Seq<PointEmu>, n: int) -> Seq<char>
    decreases n,
{
    if n <= 0 {
        Seq::empty()
    } else {
        let p = points[n - 1];
        let tag = if n == 1 {
            "moveTo"@
        } else {
            "lnTo"@
        };
        path_points(points, n - 1) + "<a:"@ + tag + "><a:pt x=\""@ + signed(p.x as int) + "\" y=\""@
            + signed(p.y as int) + "\"/></a:"@ + tag + ">"@
    }
}

/// A connector that bends: a freeform that goes through every point.
pub open spec fn bent_xml(
    id: int,
    name: Seq<char>,
    route: RouteEmuView,
    dashed: bool,
    arrow: bool,
) -> Seq<char> {
    opening(id, name, route.frame)
        + "<a:custGeom><a:avLst/><a:gdLst/><a:ahLst/><a:cxnLst/><a:rect l=\"0\" t=\"0\" r=\"0\" b=\"0\"/><a:pathLst><a:path w=\""@
        + signed(route.frame.width as int) + "\" h=\""@ + signed(route.frame.height as int)
        + "\" fill=\"none\">"@ + path_points(route.points, route.points.len() as int)
        + "</a:path></a:pathLst></a:custGeom><a:noFill/>"@ + outline(dashed, arrow)
        + "</p:spPr><p:txBody><a:bodyPr/><a:lstStyle/><a:p/></p:txBody></p:sp>"@
}

/// The attributes that turn a straight connector round.
pub open spec fn flips(route: RouteEmuView) -> Seq<char> {
    let turned = if route.leftward {
        " flipH=\"1\""@
    } else {
        ""@
    };
    turned + (if route.upward {
        " flipV=\"1\""@
    } else {
        ""@
    })
}

/// A straight connector, from the first point to the last one.
pub open spec fn straight_xml(
    id: int,
    name: Seq<char>,
    route: RouteEmuView,
    dashed: bool,
    arrow: bool,
) -> Seq<char> {
    "<p:cxnSp><p:nvCxnSpPr><p:cNvPr id=\""@ + decimal(id) + "\" name=\""@ + xml_apos_text(name)
        + "\"/><p:cNvCxnSpPr/><p:nvPr/></p:nvCxnSpPr><p:spPr><a:xfrm"@ + flips(route)
        + "><a:off x=\""@ + signed(route.frame.x as int) + "\" y=\""@ + signed(
        route.frame.y as int,
    ) + "\"/><a:ext cx=\""@ + signed(route.across as int) + "\" cy=\""@ + signed(
        route.down as int,
    )
        + "\"/></a:xfrm><a:prstGeom prst=\"straightConnector1\"><a:avLst/></a:prstGeom>"@
        + outline(dashed, arrow) + "</p:spPr></p:cxnSp>"@
}

/// A connector. One without points is nothing.
pub open spec fn connector_xml(
    id: int,
    name: Seq<char>,
    route: RouteEmuView,
    dashed: bool,
    arrow: bool,
) -> Seq<char> {
    if route.points.len() == 0 {
        Seq::empty()
    } else if bends(route) {
        bent_xml(id, name, route, dashed, arrow)
    } else {
        straight_xml(id, name, route, dashed, arrow)
    }
}

/// The XML of the shape with the id `id`.
pub open spec fn shape_xml(id: int, shape: ShapeView) -> Seq<char> {
    match shape {
        ShapeView::Box { name, rect, label } => box_xml(id, name, rect, label),
        ShapeView::Ellipse { name, rect, filled } => ellipse_xml(id, name, rect, filled),
        ShapeView::Connector { name, route, dashed, arrow } => connector_xml(
            id,
            name,
            route,
            dashed,
            arrow,
        ),
        ShapeView::Label { name, rect, label } => label_xml(id, name, rect, label),
    }
}

/// The XML of the first `n` shapes. Their ids are 2, 3 and so on; 1 is the id of
/// the slide itself.
pub open spec fn shapes_xml(shapes: Seq<ShapeView>, n: int) -> Seq<char>
    decreases n,
{
    if n <= 0 {
        Seq::empty()
    } else {
        shapes_xml(shapes, n - 1) + shape_xml(n + 1, shapes[n - 1])
    }
}

// ---------------------------------------------------------------------------
// Writing shapes
// ---------------------------------------------------------------------------

fn write_opening(id: u128, name: &str, rect: &RectEmu) -> (r: String)
    ensures
        r@ == opening(id as int, name@, *rect),
{
    let mut out = String::from_str("<p:sp><p:nvSpPr><p:cNvPr id=\"");
    push_wide(&mut out, id);
    out.append("\" name=\"");
    let name = escape_xml_apos(name);
    out.append(name.as_str());
    out.append("\"/><p:cNvSpPr/><p:nvPr/></p:nvSpPr><p:spPr><a:xfrm><a:off x=\"");
    push_signed(&mut out, rect.x);
    out.append("\" y=\"");
    push_signed(&mut out, rect.y);
    out.append("\"/><a:ext cx=\"");
    push_signed(&mut out, rect.width);
    out.append("\" cy=\"");
    push_signed(&mut out, rect.height);
    out.append("\"/></a:xfrm>");
    out
}

/// A rounded rectangle with a text.
pub fn rect_shape(id: u128, name: &str, rect: &RectEmu, label: &str) -> (r: String)
    ensures
        r@ == box_xml(id as int, name@, *rect, label@),
{
    let mut out = write_opening(id, name, rect);
    out.append(
        "<a:prstGeom prst=\"roundRect\"><a:avLst/></a:prstGeom><a:solidFill><a:srgbClr val=\"FFFFFF\"/></a:solidFill><a:ln><a:solidFill><a:srgbClr val=\"000000\"/></a:solidFill></a:ln></p:spPr><p:txBody><a:bodyPr anchor=\"ctr\"/><a:lstStyle/><a:p><a:pPr algn=\"ctr\"/>",
    );
    let run_xml = if label.unicode_len() == 0 {
        String::new()
    } else {
        let text = escape_xml_apos(label);
        concat3("<a:r><a:t>", text.as_str(), "</a:t></a:r>")
    };
    assert(run_xml@ == run(label@));
    out.append(run_xml.as_str());
    out.append("</a:p></p:txBody></p:sp>");
    out
}

/// An ellipse.
pub fn ellipse_shape(id: u128, name: &str, rect: &RectEmu, filled: bool) -> (r: String)
    ensures
        r@ == ellipse_xml(id as int, name@, *rect, filled),
{
    let mut out = write_opening(id, name, rect);
    out.append("<a:prstGeom prst=\"ellipse\"><a:avLst/></a:prstGeom>");
    out.append(
        if filled {
            "<a:solidFill><a:srgbClr val=\"000000\"/></a:solidFill>"
        } else {
            "<a:noFill/>"
        },
    );
    out.append(
        "<a:ln><a:solidFill><a:srgbClr val=\"000000\"/></a:solidFill></a:ln></p:spPr><p:txBody><a:bodyPr/><a:lstStyle/><a:p/></p:txBody></p:sp>",
    );
    out
}

/// A text on white ground.
pub fn label_box_shape(id: u128, name: &str, rect: &RectEmu, label: &str) -> (r: String)
    ensures
        r@ == label_xml(id as int, name@, *rect, label@),
{
    let mut out = write_opening(id, name, rect);
    out.append(
        "<a:prstGeom prst=\"rect\"><a:avLst/></a:prstGeom><a:solidFill><a:srgbClr val=\"FFFFFF\"/></a:solidFill><a:ln><a:noFill/></a:ln></p:spPr><p:txBody><a:bodyPr wrap=\"none\" lIns=\"0\" tIns=\"0\" rIns=\"0\" bIns=\"0\" anchor=\"ctr\"/><a:lstStyle/><a:p><a:pPr algn=\"ctr\"/><a:r><a:rPr sz=\"1200\"/><a:t>",
    );
    let text = escape_xml_apos(label);
    out.append(text.as_str());
    out.append("</a:t></a:r></a:p></p:txBody></p:sp>");
    out
}

fn write_outline(dashed: bool, arrow: bool) -> (r: String)
    ensures
        r@ == outline(dashed, arrow),
{
    let mut out = String::from_str("<a:ln><a:solidFill><a:srgbClr val=\"000000\"/></a:solidFill>");
    if dashed {
        out.append("<a:prstDash val=\"dash\"/>");
    }
    if arrow {
        out.append("<a:tailEnd type=\"triangle\"/>");
    }
    out.append("</a:ln>");
    out
}

fn write_path(points: &Vec<PointEmu>) -> (r: String)
    ensures
        r@ == path_points(points@, points@.len() as int),
{
    let mut out = String::new();
    let mut i: usize = 0;
    while i < points.len()
        invariant
            i <= points@.len(),
            out@ == path_points(points@, i as int),
        decreases points@.len() - i,
    {
        let tag: &'static str = if i == 0 {
            "moveTo"
        } else {
            "lnTo"
        };
        out.append("<a:");
        out.append(tag);
        out.append("><a:pt x=\"");
        push_signed(&mut out, points[i].x);
        out.append("\" y=\"");
        push_signed(&mut out, points[i].y);
        out.append("\"/></a:");
        out.append(tag);
        out.append(">");
        i = i + 1;
    }
    out
}

fn write_bent(id: u128, name: &str, route: &RouteEmu, dashed: bool, arrow: bool) -> (r: String)
    ensures
        r@ == bent_xml(id as int, name@, route@, dashed, arrow),
{
    let mut out = write_opening(id, name, &route.frame);
    out.append(
        "<a:custGeom><a:avLst/><a:gdLst/><a:ahLst/><a:cxnLst/><a:rect l=\"0\" t=\"0\" r=\"0\" b=\"0\"/><a:pathLst><a:path w=\"",
    );
    push_signed(&mut out, route.frame.width);
    out.append("\" h=\"");
    push_signed(&mut out, route.frame.height);
    out.append("\" fill=\"none\">");
    let path = write_path(&route.points);
    out.append(path.as_str());
    out.append("</a:path></a:pathLst></a:custGeom><a:noFill/>");
    let ln = write_outline(dashed, arrow);
    out.append(ln.as_str());
    out.append("</p:spPr><p:txBody><a:bodyPr/><a:lstStyle/><a:p/></p:txBody></p:sp>");
    out
}

fn write_straight(id: u128, name: &str, route: &RouteEmu, dashed: bool, arrow: bool) -> (r: String)
    ensures
        r@ == straight_xml(id as int, name@, route@, dashed, arrow),
{
    let mut out = String::from_str("<p:cxnSp><p:nvCxnSpPr><p:cNvPr id=\"");
    push_wide(&mut out, id);
    out.append("\" name=\"");
    let name = escape_xml_apos(name);
    out.append(name.as_str());
    out.append("\"/><p:cNvCxnSpPr/><p:nvPr/></p:nvCxnSpPr><p:spPr><a:xfrm");
    let turned = concat(
        if route.leftward {
            " flipH=\"1\""
        } else {
            ""
        },
        if route.upward {
            " flipV=\"1\""
        } else {
            ""
        },
    );
    out.append(turned.as_str());
    out.append("><a:off x=\"");
    push_signed(&mut out, route.frame.x);
    out.append("\" y=\"");
    push_signed(&mut out, route.frame.y);
    out.append("\"/><a:ext cx=\"");
    push_signed(&mut out, route.across);
    out.append("\" cy=\"");
    push_signed(&mut out, route.down);
    out.append("\"/></a:xfrm><a:prstGeom prst=\"straightConnector1\"><a:avLst/></a:prstGeom>");
    let ln = write_outline(dashed, arrow);
    out.append(ln.as_str());
    out.append("</p:spPr></p:cxnSp>");
    out
}

/// The absolute value of `a`.
fn magnitude(a: i128) -> (r: u128)
    requires
        -0x1_0000_0000_0000_0000 < a < 0x1_0000_0000_0000_0000,
    ensures
        r < 0x1_0000_0000_0000_0000,
        r == (if a < 0 {
            -a
        } else {
            a as int
        }),
{
    if a < 0 {
        (-a) as u128
    } else {
        a as u128
    }
}

/// Whether `a * b` is `c * d`.
fn same_products(a: i128, b: i128, c: i128, d: i128) -> (r: bool)
    requires
        -0x1_0000_0000_0000_0000 < a < 0x1_0000_0000_0000_0000,
        -0x1_0000_0000_0000_0000 < b < 0x1_0000_0000_0000_0000,
        -0x1_0000_0000_0000_0000 < c < 0x1_0000_0000_0000_0000,
        -0x1_0000_0000_0000_0000 < d < 0x1_0000_0000_0000_0000,
    ensures
        r == (a * b == c * d),
{
    let (ma, mb, mc, md): (u128, u128, u128, u128) = (
        magnitude(a),
        magnitude(b),
        magnitude(c),
        magnitude(d),
    );
    assert(ma * mb <= u128::MAX) by (nonlinear_arith)
        requires
            ma < 0x1_0000_0000_0000_0000,
            mb < 0x1_0000_0000_0000_0000,
    ;
    assert(mc * md <= u128::MAX) by (nonlinear_arith)
        requires
            mc < 0x1_0000_0000_0000_0000,
            md < 0x1_0000_0000_0000_0000,
    ;
    let left: u128 = ma * mb;
    let right: u128 = mc * md;
    proof {
        lemma_signed_product(a as int, b as int);
        lemma_signed_product(c as int, d as int);
    }
    left == right && (left == 0 || ((a < 0) != (b < 0)) == ((c < 0) != (d < 0)))
}

/// A product is that of the absolute values, with the sign of the factors.
proof fn lemma_signed_product(a: int, b: int)
    ensures
        ({
            let m = (if a < 0 {
                -a
            } else {
                a
            }) * (if b < 0 {
                -b
            } else {
                b
            });
            &&& 0 <= m
            &&& a * b == (if (a < 0) != (b < 0) {
                -m
            } else {
                m
            })
        }),
{
    assert((-a) * b == -(a * b)) by (nonlinear_arith);
    assert(a * (-b) == -(a * b)) by (nonlinear_arith);
    assert((-a) * (-b) == a * b) by (nonlinear_arith);
    assert(0 <= a && 0 <= b ==> 0 <= a * b) by (nonlinear_arith);
    assert(0 <= -a && 0 <= b ==> 0 <= (-a) * b) by (nonlinear_arith);
    assert(0 <= a && 0 <= -b ==> 0 <= a * (-b)) by (nonlinear_arith);
    assert(0 <= -a && 0 <= -b ==> 0 <= (-a) * (-b)) by (nonlinear_arith);
}

/// Whether all points lie on one line.
pub fn is_collinear(points: &Vec<PointEmu>) -> (r: bool)
    ensures
        r == collinear(points@),
{
    let mut j: usize = 0;
    while j < points.len()
        invariant
            j <= points@.len(),
            forall|a: int, b: int|
                0 <= a < j && 0 <= b < points@.len() ==> in_line(
                    points@[0],
                    #[trigger] points@[a],
                    #[trigger] points@[b],
                ),
        decreases points@.len() - j,
    {
        let mut k: usize = 0;
        while k < points.len()
            invariant
                j < points@.len(),
                k <= points@.len(),
                forall|b: int|
                    0 <= b < k ==> in_line(points@[0], points@[j as int], #[trigger] points@[b]),
            decreases points@.len() - k,
        {
            let (p, q, r) = (points[0], points[j], points[k]);
            if !same_products(
                q.x as i128 - p.x as i128,
                r.y as i128 - p.y as i128,
                q.y as i128 - p.y as i128,
                r.x as i128 - p.x as i128,
            ) {
                assert(!in_line(points@[0], points@[j as int], points@[k as int]));
                return false;
            }
            k = k + 1;
        }
        j = j + 1;
    }
    true
}

/// A connector.
pub fn connector_shape(id: u128, name: &str, route: &RouteEmu, dashed: bool, arrow: bool) -> (r:
    String)
    ensures
        r@ == connector_xml(id as int, name@, route@, dashed, arrow),
{
    if route.points.len() == 0 {
        String::new()
    } else if route.points.len() > 2 && route.has_area && !is_collinear(&route.points) {
        write_bent(id, name, route, dashed, arrow)
    } else {
        write_straight(id, name, route, dashed, arrow)
    }
}

/// Points that are in line with `p` are in line with each other.
proof fn lemma_in_line(p: PointEmu, a: PointEmu, b: PointEmu, c: PointEmu)
    requires
        in_line(p, a, b),
        in_line(p, b, c),
        in_line(p, a, c),
    ensures
        in_line(a, b, c),
{
    let (ax, ay) = (a.x - p.x, a.y - p.y);
    let (bx, by) = (b.x - p.x, b.y - p.y);
    let (cx, cy) = (c.x - p.x, c.y - p.y);
    assert((bx - ax) * (cy - ay) == (by - ay) * (cx - ax)) by (nonlinear_arith)
        requires
            ax * by == ay * bx,
            bx * cy == by * cx,
            ax * cy == ay * cx,
    ;
}

/// A route whose points lie on one line, any three of them, is drawn as a straight
/// connector, and any other route with an area as a shape that visits its points.
pub proof fn law_straight_routes(
    id: int,
    name: Seq<char>,
    route: RouteEmuView,
    dashed: bool,
    arrow: bool,
)
    requires
        route.points.len() > 0,
    ensures
        collinear(route.points) == forall|i: int, j: int, k: int|
            0 <= i < route.points.len() && 0 <= j < route.points.len() && 0 <= k
                < route.points.len() ==> in_line(
                #[trigger] route.points[i],
                #[trigger] route.points[j],
                #[trigger] route.points[k],
            ),
        collinear(route.points) ==> connector_xml(id, name, route, dashed, arrow) == straight_xml(
            id,
            name,
            route,
            dashed,
            arrow,
        ),
        route.points.len() > 2 && route.has_area && !collinear(route.points) ==> connector_xml(
            id,
            name,
            route,
            dashed,
            arrow,
        ) == bent_xml(id, name, route, dashed, arrow),
{
    let points = route.points;
    if collinear(points) {
        assert forall|i: int, j: int, k: int|
            0 <= i < points.len() && 0 <= j < points.len() && 0 <= k < points.len() implies in_line(
            #[trigger] points[i],
            #[trigger] points[j],
            #[trigger] points[k],
        ) by {
            lemma_in_line(points[0], points[i], points[j], points[k]);
        }
    }
}

// ---------------------------------------------------------------------------
// Collecting shapes
// ---------------------------------------------------------------------------

/// The shapes written so far. Its view is the list of them.
pub struct Shapes {
    xml: String,
    next: u128,
    written: Ghost<Seq<ShapeView>>,
}

impl View for Shapes {
    type V = Seq<ShapeView>;

    closed spec fn view(&self) -> Seq<ShapeView> {
        self.written@
    }
}

impl Shapes {
    /// The XML is that of the shapes, and the next id is the first unused one.
    pub closed spec fn wf(&self) -> bool {
        &&& self.xml@ == shapes_xml(self.written@, self.written@.len() as int)
        &&& self.next == self.written@.len() + 2
    }

    /// No shapes.
    pub fn new() -> (r: Self)
        ensures
            r.wf(),
            r@ == Seq::<ShapeView>::empty(),
    {
        Shapes { xml: String::new(), next: 2, written: Ghost(Seq::empty()) }
    }

    fn write(&mut self, xml: String, shape: Ghost<ShapeView>)
        requires
            old(self).wf(),
            old(self)@.len() < u128::MAX - 2,
            xml@ == shape_xml(old(self)@.len() as int + 2, shape@),
        ensures
            final(self).wf(),
            final(self)@ == old(self)@.push(shape@),
    {
        let ghost before = self.written@;
        self.xml.append(xml.as_str());
        self.next = self.next + 1;
        self.written = Ghost(before.push(shape@));
        proof {
            lemma_shapes_prefix(before, before.push(shape@), before.len() as int);
        }
    }

    /// Adds a rounded rectangle with a text.
    pub fn add_box(&mut self, name: &str, rect: &RectEmu, label: &str)
        requires
            old(self).wf(),
            old(self)@.len() < u128::MAX - 2,
        ensures
            final(self).wf(),
            final(self)@ == old(self)@.push(
                ShapeView::Box { name: name@, rect: *rect, label: label@ },
            ),
    {
        let xml = rect_shape(self.next, name, rect, label);
        self.write(xml, Ghost(ShapeView::Box { name: name@, rect: *rect, label: label@ }));
    }

    /// Adds an ellipse.
    pub fn add_ellipse(&mut self, name: &str, rect: &RectEmu, filled: bool)
        requires
            old(self).wf(),
            old(self)@.len() < u128::MAX - 2,
        ensures
            final(self).wf(),
            final(self)@ == old(self)@.push(
                ShapeView::Ellipse { name: name@, rect: *rect, filled },
            ),
    {
        let xml = ellipse_shape(self.next, name, rect, filled);
        self.write(xml, Ghost(ShapeView::Ellipse { name: name@, rect: *rect, filled }));
    }

    /// Adds a connector.
    pub fn add_connector(&mut self, name: &str, route: &RouteEmu, dashed: bool, arrow: bool)
        requires
            old(self).wf(),
            old(self)@.len() < u128::MAX - 2,
        ensures
            final(self).wf(),
            final(self)@ == old(self)@.push(
                ShapeView::Connector { name: name@, route: route@, dashed, arrow },
            ),
    {
        let xml = connector_shape(self.next, name, route, dashed, arrow);
        self.write(
            xml,
            Ghost(ShapeView::Connector { name: name@, route: route@, dashed, arrow }),
        );
    }

    /// Adds a text on white ground.
    pub fn add_label(&mut self, name: &str, rect: &RectEmu, label: &str)
        requires
            old(self).wf(),
            old(self)@.len() < u128::MAX - 2,
        ensures
            final(self).wf(),
            final(self)@ == old(self)@.push(
                ShapeView::Label { name: name@, rect: *rect, label: label@ },
            ),
    {
        let xml = label_box_shape(self.next, name, rect, label);
        self.write(xml, Ghost(ShapeView::Label { name: name@, rect: *rect, label: label@ }));
    }

    /// The XML of the shapes.
    pub fn into_xml(self) -> (r: String)
        requires
            self.wf(),
        ensures
            r@ == shapes_xml(self@, self@.len() as int),
    {
        self.xml
    }
}

/// The XML of the first shapes is the same in every list that begins with them.
pub proof fn lemma_shapes_prefix(a: Seq<ShapeView>, b: Seq<ShapeView>, n: int)
    requires
        n <= a.len(),
        n <= b.len(),
        forall|i: int| 0 <= i < n ==> a[i] == b[i],
    ensures
        shapes_xml(a, n) == shapes_xml(b, n),
    decreases n,
{
    if n > 0 {
        lemma_shapes_prefix(a, b, n - 1);
    }
}

} // verus!
