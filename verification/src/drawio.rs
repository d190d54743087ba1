//! Laid-out diagrams as draw.io documents.
//!
//! A document is a list of cells. Ids follow from positions in the layout: boxes
//! are `n0`, `n1` and so on, connectors `e0`, `e1` and so on, containers `c0`,
//! `c1` and so on. Text that comes from a diagram is always escaped. Coordinates
//! are given as the text that is to be written.
use crate::drawio::class::{
    class_document, law_connected_classes_are_shown, render_class, render_er,
};
use crate::drawio::graph::{graph_document, law_connected_graphs_are_shown, render_graph};
use crate::drawio::sequence::{
    law_connected_sequences_are_shown, render_sequence, sequence_document, ColumnText,
    ColumnTextView, MessageText, MessageTextView,
};
use crate::drawio::state::{law_connected_states_are_shown, render_state, state_document};
use crate::escape::{escape_xml, xml_text};
use crate::layout::{connected, SemanticLayout, SemanticLayoutView};
use crate::text::{concat, concat3, decimal, opt_view, views};
use vstd::prelude::*;

pub mod class;
pub mod graph;
pub mod laws;
pub mod sequence;
pub mod state;

verus! {

/// Why a layout cannot be exported.
#[derive(Debug, Clone, PartialEq)]
pub enum RenderError {
    /// There is no way to show a diagram of this kind.
    UnsupportedDiagram {
        /// The kind.
        kind: &'static str,
    },
    /// An edge, a message or a relation names a box that is not there.
    DanglingEdge {
        /// The id that is not there.
        node_id: String,
    },
    /// A transition names an end that is not there.
    UnknownEndpoint {
        /// What is not there.
        description: String,
    },
    /// There is no way to show a node of this kind.
    UnknownNodeKind {
        /// The kind.
        description: String,
    },
    /// There is no way to show this.
    InvalidSemantic {
        /// What cannot be shown.
        description: String,
    },
}

/// The model of [`RenderError`].
#[verifier::ext_equal]
pub enum RenderErrorView {
    UnsupportedDiagram { kind: Seq<char> },
    DanglingEdge { node_id: Seq<char> },
    UnknownEndpoint { description: Seq<char> },
    UnknownNodeKind { description: Seq<char> },
    InvalidSemantic { description: Seq<char> },
}

impl View for RenderError {
    type V = RenderErrorView;

    open spec fn view(&self) -> RenderErrorView {
        match self {
            RenderError::UnsupportedDiagram { kind } => RenderErrorView::UnsupportedDiagram {
                kind: kind@,
            },
            RenderError::DanglingEdge { node_id } => RenderErrorView::DanglingEdge {
                node_id: node_id@,
            },
            RenderError::UnknownEndpoint { description } => RenderErrorView::UnknownEndpoint {
                description: description@,
            },
            RenderError::UnknownNodeKind { description } => RenderErrorView::UnknownNodeKind {
                description: description@,
            },
            RenderError::InvalidSemantic { description } => RenderErrorView::InvalidSemantic {
                description: description@,
            },
        }
    }
}

/// What an error says.
pub open spec fn error_text(e: RenderErrorView) -> Seq<char> {
    match e {
        RenderErrorView::UnsupportedDiagram { kind } => "draw.io export does not support "@ + kind
            + " diagrams"@,
        RenderErrorView::DanglingEdge { node_id } =>
            "draw.io export: edge references unknown node \""@ + node_id + "\""@,
        RenderErrorView::UnknownEndpoint { description } =>
            "draw.io export: cannot resolve transition endpoint: "@ + description,
        RenderErrorView::UnknownNodeKind { description } =>
            "draw.io export: unknown graph node kind: "@ + description,
        RenderErrorView::InvalidSemantic { description } =>
            "draw.io export: invalid semantic value: "@ + description,
    }
}

impl RenderError {
    /// What the error says.
    pub fn to_string(&self) -> (r: String)
        ensures
            r@ == error_text(self@),
    {
        match self {
            RenderError::UnsupportedDiagram { kind } => concat3(
                "draw.io export does not support ",
                *kind,
                " diagrams",
            ),
            RenderError::DanglingEdge { node_id } => concat3(
                "draw.io export: edge references unknown node \"",
                node_id.as_str(),
                "\"",
            ),
            RenderError::UnknownEndpoint { description } => concat(
                "draw.io export: cannot resolve transition endpoint: ",
                description.as_str(),
            ),
            RenderError::UnknownNodeKind { description } => concat(
                "draw.io export: unknown graph node kind: ",
                description.as_str(),
            ),
            RenderError::InvalidSemantic { description } => concat(
                "draw.io export: invalid semantic value: ",
                description.as_str(),
            ),
        }
    }
}

/// A text, or why there is none.
pub type TextView = Result<Seq<char>, RenderErrorView>;

/// The model of a text, or of why there is none.
pub open spec fn text_view(r: Result<String, RenderError>) -> TextView {
    match r {
        Ok(s) => Ok(s@),
        Err(e) => Err(e@),
    }
}

/// The error about a box that is not there.
pub open spec fn dangling(id: Seq<char>) -> TextView {
    Err(RenderErrorView::DanglingEdge { node_id: id })
}

/// The error about a box that is not there.
pub fn dangling_error(id: &String) -> (r: RenderError)
    ensures
        Err::<Seq<char>, RenderErrorView>(r@) == dangling(id@),
{
    RenderError::DanglingEdge { node_id: id.clone() }
}

// ---------------------------------------------------------------------------
// Coordinates
// ---------------------------------------------------------------------------

/// Where a cell lies.
#[derive(Debug, Clone, PartialEq, Eq)]
pub struct RectText {
    /// The left side.
    pub x: String,
    /// The upper side.
    pub y: String,
    /// The width.
    pub width: String,
    /// The height.
    pub height: String,
}

/// The model of [`RectText`].
#[verifier::ext_equal]
pub struct RectTextView {
    pub x: Seq<char>,
    pub y: Seq<char>,
    pub width: Seq<char>,
    pub height: Seq<char>,
}

impl View for RectText {
    type V = RectTextView;

    open spec fn view(&self) -> RectTextView {
        RectTextView { x: self.x@, y: self.y@, width: self.width@, height: self.height@ }
    }
}

/// A point.
#[derive(Debug, Clone, PartialEq, Eq)]
pub struct PointText {
    /// How far to the right it is.
    pub x: String,
    /// How far down it is.
    pub y: String,
}

/// The model of [`PointText`].
#[verifier::ext_equal]
pub struct PointTextView {
    pub x: Seq<char>,
    pub y: Seq<char>,
}

impl View for PointText {
    type V = PointTextView;

    open spec fn view(&self) -> PointTextView {
        PointTextView { x: self.x@, y: self.y@ }
    }
}

/// How a connector runs, from its source to its target.
#[derive(Debug, Clone, PartialEq, Eq)]
pub struct RouteText {
    /// The points it goes through.
    pub points: Vec<PointText>,
}

/// The model of [`RouteText`].
#[verifier::ext_equal]
pub struct RouteTextView {
    pub points: Seq<PointTextView>,
}

impl View for RouteText {
    type V = RouteTextView;

    open spec fn view(&self) -> RouteTextView {
        RouteTextView { points: views(self.points@) }
    }
}

// ---------------------------------------------------------------------------
// Cells
// ---------------------------------------------------------------------------

/// Escapes `< > & "` for XML attribute values and text.
pub fn xml_escape(s: &str) -> (r: String)
    ensures
        r@ == xml_text(s@),
{
    escape_xml(s)
}

/// What stands before the cells.
pub open spec fn header() -> Seq<char> {
    "<mxfile>\n  <diagram id=\"kozue\" name=\"Page-1\">\n    <mxGraphModel dx=\"1422\" dy=\"762\" grid=\"1\" gridSize=\"10\" guides=\"1\" tooltips=\"1\" connect=\"1\" arrows=\"1\" fold=\"1\" page=\"1\" pageScale=\"1\" pageWidth=\"1169\" pageHeight=\"827\" math=\"0\" shadow=\"0\">\n      <root>\n        <mxCell id=\"0\"/>\n        <mxCell id=\"1\" parent=\"0\"/>\n"@
}

/// What stands behind the cells.
pub open spec fn footer() -> Seq<char> {
    "      </root>\n    </mxGraphModel>\n  </diagram>\n</mxfile>\n"@
}

/// What stands before the cells.
pub fn mxfile_header() -> (r: String)
    ensures
        r@ == header(),
{
    String::from_str(
        "<mxfile>\n  <diagram id=\"kozue\" name=\"Page-1\">\n    <mxGraphModel dx=\"1422\" dy=\"762\" grid=\"1\" gridSize=\"10\" guides=\"1\" tooltips=\"1\" connect=\"1\" arrows=\"1\" fold=\"1\" page=\"1\" pageScale=\"1\" pageWidth=\"1169\" pageHeight=\"827\" math=\"0\" shadow=\"0\">\n      <root>\n        <mxCell id=\"0\"/>\n        <mxCell id=\"1\" parent=\"0\"/>\n",
    )
}

/// What stands behind the cells.
pub fn mxfile_footer() -> (r: &'static str)
    ensures
        r@ == footer(),
{
    "      </root>\n    </mxGraphModel>\n  </diagram>\n</mxfile>\n"
}

/// The id of the box at `i`.
pub open spec fn box_id(i: int) -> Seq<char> {
    "n"@ + decimal(i)
}

/// The id of the connector at `i`.
pub open spec fn connector_id(i: int) -> Seq<char> {
    "e"@ + decimal(i)
}

/// A box, after the text `out`. `value` is escaped already.
pub open spec fn vertex(
    out: Seq<char>,
    id: Seq<char>,
    value: Seq<char>,
    style: Seq<char>,
    parent: Seq<char>,
    rect: RectTextView,
) -> Seq<char> {
    out + "        <mxCell id=\""@ + id + "\" value=\""@ + value + "\" style=\""@ + style
        + "\" vertex=\"1\" parent=\""@ + parent + "\">\n          <mxGeometry x=\""@ + rect.x
        + "\" y=\""@ + rect.y + "\" width=\""@ + rect.width + "\" height=\""@ + rect.height
        + "\" as=\"geometry\"/>\n        </mxCell>\n"@
}

/// Appends a box.
pub fn push_vertex(
    out: &mut String,
    id: &str,
    value: &str,
    style: &str,
    parent: &str,
    rect: &RectText,
)
    ensures
        final(out)@ == vertex(old(out)@, id@, value@, style@, parent@, rect@),
{
    out.append("        <mxCell id=\"");
    out.append(id);
    out.append("\" value=\"");
    out.append(value);
    out.append("\" style=\"");
    out.append(style);
    out.append("\" vertex=\"1\" parent=\"");
    out.append(parent);
    out.append("\">\n          <mxGeometry x=\"");
    out.append(rect.x.as_str());
    out.append("\" y=\"");
    out.append(rect.y.as_str());
    out.append("\" width=\"");
    out.append(rect.width.as_str());
    out.append("\" height=\"");
    out.append(rect.height.as_str());
    out.append("\" as=\"geometry\"/>\n        </mxCell>\n");
}

/// The points of a route before the one at `n`, without the first one.
pub open spec fn waypoints_before(points: Seq<PointTextView>, n: int) -> Seq<char>
    decreases n,
{
    if n <= 1 {
        "\n            <Array as=\"points\">"@
    } else {
        waypoints_before(points, n - 1) + "\n              <mxPoint x=\""@ + points[n - 1].x
            + "\" y=\""@ + points[n - 1].y + "\"/>"@
    }
}

/// The points at which a route bends: those between its ends. A route without
/// any has no list of them.
pub open spec fn waypoints(points: Seq<PointTextView>) -> Seq<char> {
    if points.len() <= 2 {
        Seq::empty()
    } else {
        waypoints_before(points, points.len() - 1) + "\n            </Array>"@
    }
}

/// The points at which a route bends.
pub fn waypoints_xml(points: &Vec<PointText>) -> (r: String)
    ensures
        r@ == waypoints(views(points@)),
{
    let ghost all = views(points@);
    if points.len() <= 2 {
        return String::new();
    }
    let last: usize = points.len() - 1;
    let mut out = String::from_str("\n            <Array as=\"points\">");
    let mut i: usize = 1;
    while i < last
        invariant
            1 <= i <= last,
            last == points@.len() - 1,
            all == views(points@),
            out@ == waypoints_before(all, i as int),
        decreases last - i,
    {
        assert(all[i as int] == points@[i as int]@);
        out.append("\n              <mxPoint x=\"");
        out.append(points[i].x.as_str());
        out.append("\" y=\"");
        out.append(points[i].y.as_str());
        out.append("\"/>");
        i = i + 1;
    }
    out.append("\n            </Array>");
    out
}

/// A connector, after the text `out`. `value` is escaped already.
pub open spec fn connector(
    out: Seq<char>,
    id: Seq<char>,
    value: Seq<char>,
    style: Seq<char>,
    ends: (Seq<char>, Seq<char>),
    points: Seq<PointTextView>,
) -> Seq<char> {
    let opened = out + "        <mxCell id=\""@ + id + "\" value=\""@ + value + "\" style=\""@ + style
        + "\" edge=\"1\" source=\""@ + ends.0 + "\" target=\""@ + ends.1
        + "\" parent=\"1\">\n          <mxGeometry relative=\"1\" as=\"geometry\""@;
    if points.len() <= 2 {
        opened + "/>\n        </mxCell>\n"@
    } else {
        opened + ">"@ + waypoints(points) + "\n          </mxGeometry>\n        </mxCell>\n"@
    }
}

/// Appends a connector.
pub fn push_connector(
    out: &mut String,
    id: &str,
    value: &str,
    style: &str,
    ends: (&str, &str),
    points: &Vec<PointText>,
)
    ensures
        final(out)@ == connector(
            old(out)@,
            id@,
            value@,
            style@,
            (ends.0@, ends.1@),
            views(points@),
        ),
{
    out.append("        <mxCell id=\"");
    out.append(id);
    out.append("\" value=\"");
    out.append(value);
    out.append("\" style=\"");
    out.append(style);
    out.append("\" edge=\"1\" source=\"");
    out.append(ends.0);
    out.append("\" target=\"");
    out.append(ends.1);
    out.append("\" parent=\"1\">\n          <mxGeometry relative=\"1\" as=\"geometry\"");
    if points.len() <= 2 {
        out.append("/>\n        </mxCell>\n");
    } else {
        out.append(">");
        let bends = waypoints_xml(points);
        out.append(bends.as_str());
        out.append("\n          </mxGeometry>\n        </mxCell>\n");
    }
}

/// A label on the connector `parent`, after the text `out`. `position` says
/// where on it.
pub open spec fn edge_label(
    out: Seq<char>,
    id: Seq<char>,
    value: Seq<char>,
    parent: Seq<char>,
    position: Seq<char>,
) -> Seq<char> {
    out + "        <mxCell id=\""@ + id + "\" value=\""@ + value
        + "\" style=\"edgeLabel;html=1;align=center;verticalAlign=middle;\" vertex=\"1\" connectable=\"0\" parent=\""@
        + parent + "\">\n          <mxGeometry "@ + position
        + "relative=\"1\" as=\"geometry\">\n            <mxPoint as=\"offset\"/>\n          </mxGeometry>\n        </mxCell>\n"@
}

/// Appends a label on the connector `parent`.
pub fn push_edge_label(out: &mut String, id: &str, value: &str, parent: &str, position: &str)
    ensures
        final(out)@ == edge_label(old(out)@, id@, value@, parent@, position@),
{
    out.append("        <mxCell id=\"");
    out.append(id);
    out.append("\" value=\"");
    out.append(value);
    out.append(
        "\" style=\"edgeLabel;html=1;align=center;verticalAlign=middle;\" vertex=\"1\" connectable=\"0\" parent=\"",
    );
    out.append(parent);
    out.append("\">\n          <mxGeometry ");
    out.append(position);
    out.append(
        "relative=\"1\" as=\"geometry\">\n            <mxPoint as=\"offset\"/>\n          </mxGeometry>\n        </mxCell>\n",
    );
}

/// The value of a cell with the label `label`.
pub open spec fn label_value(label: Option<Seq<char>>) -> Seq<char> {
    match label {
        Some(l) => xml_text(l),
        None => xml_text(""@),
    }
}

/// The value of a cell with the label `label`.
pub fn escape_label(label: &Option<String>) -> (r: String)
    ensures
        r@ == label_value(opt_view(*label)),
{
    match label {
        Some(l) => xml_escape(l.as_str()),
        None => xml_escape(""),
    }
}

// ---------------------------------------------------------------------------
// All diagrams
// ---------------------------------------------------------------------------

/// The document of a layout.
pub open spec fn document(
    layout: SemanticLayoutView<RectTextView, RouteTextView, ColumnTextView, MessageTextView>,
) -> TextView {
    match layout {
        SemanticLayoutView::Graph(g) => graph_document(g),
        SemanticLayoutView::State(s) => state_document(s),
        SemanticLayoutView::Sequence(s) => sequence_document(s),
        SemanticLayoutView::Class(c) => class_document(c),
        SemanticLayoutView::Er(c) => class_document(c),
    }
}

/// Exports a layout as a draw.io document.
pub fn render(layout: &SemanticLayout<RectText, RouteText, ColumnText, MessageText>) -> (r: Result<
    String,
    RenderError,
>)
    ensures
        text_view(r) == document(layout@),
{
    match layout {
        SemanticLayout::Graph(g) => render_graph(g),
        SemanticLayout::State(s) => render_state(s),
        SemanticLayout::Sequence(s) => render_sequence(s),
        SemanticLayout::Class(c) => render_class(c),
        SemanticLayout::Er(c) => render_er(c),
    }
}

/// A layout is shown exactly if what it connects is there.
pub proof fn law_connected_layouts_are_shown(
    layout: SemanticLayoutView<RectTextView, RouteTextView, ColumnTextView, MessageTextView>,
)
    ensures
        document(layout) is Ok <==> connected(layout),
{
    match layout {
        SemanticLayoutView::Graph(g) => {
            law_connected_graphs_are_shown(g);
        },
        SemanticLayoutView::State(s) => {
            law_connected_states_are_shown(s);
        },
        SemanticLayoutView::Sequence(s) => {
            law_connected_sequences_are_shown(s);
        },
        SemanticLayoutView::Class(c) => {
            law_connected_classes_are_shown(c);
        },
        SemanticLayoutView::Er(c) => {
            law_connected_classes_are_shown(c);
        },
    }
}

} // verus!
