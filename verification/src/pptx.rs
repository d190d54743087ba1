//! Laid-out diagrams as PowerPoint presentations.
//!
//! A presentation is a ZIP archive of fixed parts and one slide. Nothing in it
//! depends on the time or the machine. Coordinates are given in EMU, of which
//! there are 914400 to an inch.
use crate::escape::{escape_xml_apos, xml_apos_text};
use crate::ir::{has_key, position, ArrowType, Endpoint, EndpointView, LineStyle};
use crate::layout::{
    connected, end_there, graph_connected, sequence_connected, states_connected, GraphLayout,
    GraphLayoutView, NodeLayoutView, ParticipantLayoutView, SemanticLayout, SemanticLayoutView,
    SequenceLayout, SequenceLayoutView, StateBoxView, StateLayout, StateLayoutView,
};
use crate::pptx::shapes::{shapes_xml, RectEmu, RouteEmu, RouteEmuView, ShapeView, Shapes};
use crate::pptx::templates::{
    CONTENT_TYPES, DOC_PROPS_APP, DOC_PROPS_CORE, PRESENTATION, PRESENTATION_RELS, ROOT_RELS,
    SLIDE_LAYOUT, SLIDE_LAYOUT_RELS, SLIDE_MASTER, SLIDE_MASTER_RELS, SLIDE_RELS, THEME, XML_DECL,
};
use crate::text::{concat, concat3, decimal, numbered, opt_view};
use crate::zip::{archive, Stored, ZipWriter};
use vstd::prelude::*;

pub mod laws;
pub mod shapes;
pub mod templates;

verus! {

/// Why a layout cannot be exported.
#[derive(Debug, Clone, PartialEq)]
pub enum RenderError {
    /// There is no way to show a diagram of this kind.
    UnsupportedDiagram {
        /// The kind.
        kind: &'static str,
    },
    /// An edge or a message names a box that is not there, or has no route.
    DanglingEdge {
        /// The id that is not there.
        node_id: String,
    },
    /// A transition names an end that is not there, or has no route.
    UnknownEndpoint {
        /// What is not there.
        description: String,
    },
}

/// The model of [`RenderError`].
#[verifier::ext_equal]
pub enum RenderErrorView {
    UnsupportedDiagram { kind: Seq<char> },
    DanglingEdge { node_id: Seq<char> },
    UnknownEndpoint { description: Seq<char> },
}

impl View for RenderError {
    type V = RenderErrorView;

    open spec fn view(&self) -> RenderErrorView {
        match self {
            RenderError::UnsupportedDiagram { kind } => RenderErrorView::UnsupportedDiagram {
                kind: kind@,
            },
            RenderError::DanglingEdge { node_id } => RenderErrorView::DanglingEdge {
                node_id: node_id@,
            },
            RenderError::UnknownEndpoint { description } => RenderErrorView::UnknownEndpoint {
                description: description@,
            },
        }
    }
}

/// What an error says.
pub open spec fn error_text(e: RenderErrorView) -> Seq<char> {
    match e {
        RenderErrorView::UnsupportedDiagram { kind } => "PowerPoint export does not support "@
            + kind + " diagrams"@,
        RenderErrorView::DanglingEdge { node_id } =>
            "PowerPoint export: edge references unknown node \""@ + node_id + "\""@,
        RenderErrorView::UnknownEndpoint { description } =>
            "PowerPoint export: cannot resolve transition endpoint: "@ + description,
    }
}

impl RenderError {
    /// What the error says.
    pub fn to_string(&self) -> (r: String)
        ensures
            r@ == error_text(self@),
    {
        match self {
            RenderError::UnsupportedDiagram { kind } => concat3(
                "PowerPoint export does not support ",
                *kind,
                " diagrams",
            ),
            RenderError::DanglingEdge { node_id } => concat3(
                "PowerPoint export: edge references unknown node \"",
                node_id.as_str(),
                "\"",
            ),
            RenderError::UnknownEndpoint { description } => concat(
                "PowerPoint export: cannot resolve transition endpoint: ",
                description.as_str(),
            ),
        }
    }
}

/// Escapes `< > & " '` for XML attribute values and text.
pub fn xml_escape(s: &str) -> (r: String)
    ensures
        r@ == xml_apos_text(s@),
{
    escape_xml_apos(s)
}

// ---------------------------------------------------------------------------
// Coordinates
// ---------------------------------------------------------------------------

/// How a connection runs, and where its label lies.
#[derive(Debug, Clone, PartialEq, Eq)]
pub struct PathEmu {
    /// How it runs.
    pub route: RouteEmu,
    /// Where its label lies.
    pub label_box: Option<RectEmu>,
}

/// The model of [`PathEmu`].
#[verifier::ext_equal]
pub struct PathEmuView {
    pub route: RouteEmuView,
    pub label_box: Option<RectEmu>,
}

impl View for PathEmu {
    type V = PathEmuView;

    open spec fn view(&self) -> PathEmuView {
        PathEmuView { route: self.route@, label_box: self.label_box }
    }
}

/// Where a participant stands.
#[derive(Debug, Clone, PartialEq, Eq)]
pub struct HeaderEmu {
    /// Where its header lies.
    pub header: RectEmu,
    /// How its lifeline runs.
    pub lifeline: RouteEmu,
}

/// The model of [`HeaderEmu`].
#[verifier::ext_equal]
pub struct HeaderEmuView {
    pub header: RectEmu,
    pub lifeline: RouteEmuView,
}

impl View for HeaderEmu {
    type V = HeaderEmuView;

    open spec fn view(&self) -> HeaderEmuView {
        HeaderEmuView { header: self.header, lifeline: self.lifeline@ }
    }
}

// ---------------------------------------------------------------------------
// Connections
// ---------------------------------------------------------------------------

/// The shapes of a slide, or why there are none.
pub type SlideView = Result<Seq<ShapeView>, RenderErrorView>;

/// The model of the shapes of a slide, or of why there are none.
pub open spec fn slide_view(r: Result<Shapes, RenderError>) -> SlideView {
    match r {
        Ok(s) => Ok(s@),
        Err(e) => Err(e@),
    }
}

/// The error about a box that is not there.
pub open spec fn dangling(id: Seq<char>) -> SlideView {
    Err(RenderErrorView::DanglingEdge { node_id: id })
}

/// A connection, after the shapes `out`: a connector, and a label where there is
/// one and a place for it.
pub open spec fn connection(
    out: Seq<ShapeView>,
    name: Seq<char>,
    path: PathEmuView,
    label: Option<Seq<char>>,
    dashed: bool,
    arrow: bool,
) -> Seq<ShapeView> {
    let drawn = out.push(ShapeView::Connector { name, route: path.route, dashed, arrow });
    match (label, path.label_box) {
        (Some(l), Some(rect)) => drawn.push(
            ShapeView::Label { name: name + " label"@, rect, label: l },
        ),
        _ => drawn,
    }
}

fn add_connection(
    out: &mut Shapes,
    name: &str,
    path: &PathEmu,
    label: &Option<String>,
    dashed: bool,
    arrow: bool,
)
    requires
        old(out).wf(),
        old(out)@.len() < u128::MAX - 3,
    ensures
        final(out).wf(),
        final(out)@ == connection(old(out)@, name@, path@, opt_view(*label), dashed, arrow),
{
    out.add_connector(name, &path.route, dashed, arrow);
    match (label, &path.label_box) {
        (Some(l), Some(rect)) => {
            let label_name = concat(name, " label");
            out.add_label(label_name.as_str(), rect, l.as_str());
        },
        _ => {},
    }
}

fn dangling_error(id: &String) -> (r: RenderError)
    ensures
        Err::<Seq<ShapeView>, RenderErrorView>(r@) == dangling(id@),
{
    RenderError::DanglingEdge { node_id: id.clone() }
}

// ---------------------------------------------------------------------------
// Graphs
// ---------------------------------------------------------------------------

/// The first `n` nodes.
pub open spec fn nodes(ns: Seq<NodeLayoutView<RectEmu>>, n: int) -> Seq<ShapeView>
    decreases n,
{
    if n <= 0 {
        Seq::empty()
    } else {
        nodes(ns, n - 1).push(
            ShapeView::Box {
                name: "Node "@ + decimal(n - 1),
                rect: ns[n - 1].rect,
                label: ns[n - 1].label,
            },
        )
    }
}

/// The edges from `i` on after the shapes `out`.
pub open spec fn edges(
    out: Seq<ShapeView>,
    g: GraphLayoutView<RectEmu, PathEmuView>,
    i: int,
) -> SlideView
    decreases g.edges.len() - i,
{
    if i >= g.edges.len() {
        Ok(out)
    } else {
        let e = g.edges[i];
        if !has_key(g.nodes, e.from) {
            dangling(e.from)
        } else if !has_key(g.nodes, e.to) {
            dangling(e.to)
        } else if e.path.route.points.len() == 0 {
            dangling(e.from)
        } else {
            edges(
                connection(
                    out,
                    "Edge "@ + decimal(i),
                    e.path,
                    e.label,
                    false,
                    e.arrow != ArrowType::Plain,
                ),
                g,
                i + 1,
            )
        }
    }
}

/// The shapes of a graph: its nodes and its edges.
pub open spec fn graph_slide(g: GraphLayoutView<RectEmu, PathEmuView>) -> SlideView {
    edges(nodes(g.nodes, g.nodes.len() as int), g, 0)
}

/// The shapes of a graph.
pub fn render_graph(g: &GraphLayout<RectEmu, PathEmu>) -> (r: Result<Shapes, RenderError>)
    ensures
        slide_view(r) == graph_slide(g@),
        r matches Ok(s) ==> s.wf(),
{
    let ghost v = g@;
    let mut out = Shapes::new();
    let n: usize = g.nodes.len();
    let mut k: usize = 0;
    while k < n
        invariant
            k <= n,
            n == g.nodes@.len(),
            v == g@,
            out.wf(),
            out@ == nodes(v.nodes, k as int),
            out@.len() == k,
        decreases n - k,
    {
        assert(v.nodes[k as int] == g.nodes@[k as int]@);
        let name = numbered("Node ", k);
        out.add_box(name.as_str(), &g.nodes[k].rect, g.nodes[k].label.as_str());
        k = k + 1;
    }
    let mut i: usize = 0;
    while i < g.edges.len()
        invariant
            i <= g.edges@.len(),
            v == g@,
            out.wf(),
            out@.len() <= n + 2 * i,
            graph_slide(v) == edges(out@, v, i as int),
        decreases g.edges@.len() - i,
    {
        let e = &g.edges[i];
        assert(v.edges[i as int] == e@);
        if position(g.nodes.as_slice(), &e.from).is_none() {
            return Err(dangling_error(&e.from));
        }
        if position(g.nodes.as_slice(), &e.to).is_none() {
            return Err(dangling_error(&e.to));
        }
        if e.path.route.points.len() == 0 {
            return Err(dangling_error(&e.from));
        }
        let name = numbered("Edge ", i);
        add_connection(
            &mut out,
            name.as_str(),
            &e.path,
            &e.label,
            false,
            e.arrow != ArrowType::Plain,
        );
        i = i + 1;
    }
    Ok(out)
}

// ---------------------------------------------------------------------------
// State diagrams
// ---------------------------------------------------------------------------

/// The first `n` states.
pub open spec fn states(ss: Seq<StateBoxView<RectEmu>>, n: int) -> Seq<ShapeView>
    decreases n,
{
    if n <= 0 {
        Seq::empty()
    } else {
        states(ss, n - 1).push(
            ShapeView::Box {
                name: "State "@ + ss[n - 1].id,
                rect: ss[n - 1].rect,
                label: ss[n - 1].label,
            },
        )
    }
}

/// The pseudostates after the shapes `out`: a dot for the initial one, a ring
/// and a dot for the final one.
pub open spec fn pseudostates(
    out: Seq<ShapeView>,
    s: StateLayoutView<RectEmu, PathEmuView>,
) -> Seq<ShapeView> {
    let started = match s.initial {
        Some(rect) => out.push(ShapeView::Ellipse { name: "Initial"@, rect, filled: true }),
        None => out,
    };
    match s.final_state {
        Some(f) => started.push(
            ShapeView::Ellipse { name: "Final"@, rect: f.outer, filled: false },
        ).push(ShapeView::Ellipse { name: "Final inner"@, rect: f.inner, filled: true }),
        None => started,
    }
}

/// What is not there at one end of a transition.
pub open spec fn missing(
    s: StateLayoutView<RectEmu, PathEmuView>,
    e: EndpointView,
) -> Option<Seq<char>> {
    match e {
        EndpointView::State(id) => if has_key(s.states, id) {
            None
        } else {
            Some("state \""@ + id + "\" not found in layout"@)
        },
        EndpointView::Initial => if s.initial is Some {
            None
        } else {
            Some("Initial pseudostate referenced but not present in layout"@)
        },
        EndpointView::Final => if s.final_state is Some {
            None
        } else {
            Some("Final pseudostate referenced but not present in layout"@)
        },
    }
}

/// The transitions from `i` on after the shapes `out`.
pub open spec fn transitions(
    out: Seq<ShapeView>,
    s: StateLayoutView<RectEmu, PathEmuView>,
    i: int,
) -> SlideView
    decreases s.transitions.len() - i,
{
    if i >= s.transitions.len() {
        Ok(out)
    } else {
        let t = s.transitions[i];
        match (missing(s, t.from), missing(s, t.to)) {
            (Some(description), _) => Err(RenderErrorView::UnknownEndpoint { description }),
            (None, Some(description)) => Err(RenderErrorView::UnknownEndpoint { description }),
            (None, None) => if t.path.route.points.len() == 0 {
                Err(
                    RenderErrorView::UnknownEndpoint {
                        description: "transition "@ + decimal(i) + " has an empty route"@,
                    },
                )
            } else {
                transitions(
                    connection(
                        out,
                        "Transition "@ + decimal(i),
                        t.path,
                        t.label,
                        false,
                        true,
                    ),
                    s,
                    i + 1,
                )
            },
        }
    }
}

/// The shapes of a state diagram: its states, the pseudostates and its
/// transitions.
pub open spec fn state_slide(s: StateLayoutView<RectEmu, PathEmuView>) -> SlideView {
    transitions(pseudostates(states(s.states, s.states.len() as int), s), s, 0)
}

fn endpoint_missing(s: &StateLayout<RectEmu, PathEmu>, e: &Endpoint) -> (r: Option<String>)
    ensures
        opt_view(r) == missing(s@, e@),
{
    match e {
        Endpoint::State(id) => if position(s.states.as_slice(), id).is_some() {
            None
        } else {
            Some(concat3("state \"", id.as_str(), "\" not found in layout"))
        },
        Endpoint::Initial => if s.initial.is_some() {
            None
        } else {
            Some(String::from_str("Initial pseudostate referenced but not present in layout"))
        },
        Endpoint::Final => if s.final_state.is_some() {
            None
        } else {
            Some(String::from_str("Final pseudostate referenced but not present in layout"))
        },
    }
}

fn add_pseudostates(out: &mut Shapes, s: &StateLayout<RectEmu, PathEmu>)
    requires
        old(out).wf(),
        old(out)@.len() < u128::MAX - 5,
    ensures
        final(out).wf(),
        final(out)@ == pseudostates(old(out)@, s@),
        final(out)@.len() <= old(out)@.len() + 3,
{
    match &s.initial {
        Some(rect) => {
            out.add_ellipse("Initial", rect, true);
        },
        None => {},
    }
    match &s.final_state {
        Some(f) => {
            out.add_ellipse("Final", &f.outer, false);
            out.add_ellipse("Final inner", &f.inner, true);
        },
        None => {},
    }
}

/// The shapes of a state diagram.
pub fn render_state(s: &StateLayout<RectEmu, PathEmu>) -> (r: Result<Shapes, RenderError>)
    ensures
        slide_view(r) == state_slide(s@),
        r matches Ok(x) ==> x.wf(),
{
    let ghost v = s@;
    let mut out = Shapes::new();
    let n: usize = s.states.len();
    let mut k: usize = 0;
    while k < n
        invariant
            k <= n,
            n == s.states@.len(),
            v == s@,
            out.wf(),
            out@ == states(v.states, k as int),
            out@.len() == k,
        decreases n - k,
    {
        assert(v.states[k as int] == s.states@[k as int]@);
        let name = concat("State ", s.states[k].id.as_str());
        out.add_box(name.as_str(), &s.states[k].rect, s.states[k].label.as_str());
        k = k + 1;
    }
    add_pseudostates(&mut out, s);
    let mut i: usize = 0;
    while i < s.transitions.len()
        invariant
            i <= s.transitions@.len(),
            v == s@,
            out.wf(),
            out@.len() <= n + 3 + 2 * i,
            state_slide(v) == transitions(out@, v, i as int),
        decreases s.transitions@.len() - i,
    {
        let t = &s.transitions[i];
        assert(v.transitions[i as int] == t@);
        match endpoint_missing(s, &t.from) {
            Some(description) => {
                return Err(RenderError::UnknownEndpoint { description });
            },
            None => {},
        }
        match endpoint_missing(s, &t.to) {
            Some(description) => {
                return Err(RenderError::UnknownEndpoint { description });
            },
            None => {},
        }
        if t.path.route.points.len() == 0 {
            let mut description = numbered("transition ", i);
            description.append(" has an empty route");
            return Err(RenderError::UnknownEndpoint { description });
        }
        let name = numbered("Transition ", i);
        add_connection(&mut out, name.as_str(), &t.path, &t.label, false, true);
        i = i + 1;
    }
    Ok(out)
}

// ---------------------------------------------------------------------------
// Sequences
// ---------------------------------------------------------------------------

/// The first `n` participants: a header and a dashed lifeline each.
pub open spec fn participants(ps: Seq<ParticipantLayoutView<HeaderEmuView>>, n: int) -> Seq<ShapeView>
    decreases n,
{
    if n <= 0 {
        Seq::empty()
    } else {
        let p = ps[n - 1];
        participants(ps, n - 1).push(
            ShapeView::Box {
                name: "Participant "@ + p.id,
                rect: p.place.header,
                label: p.label,
            },
        ).push(
            ShapeView::Connector {
                name: "Lifeline "@ + p.id,
                route: p.place.lifeline,
                dashed: true,
                arrow: false,
            },
        )
    }
}

/// The messages from `i` on after the shapes `out`.
pub open spec fn messages(
    out: Seq<ShapeView>,
    s: SequenceLayoutView<HeaderEmuView, PathEmuView>,
    i: int,
) -> SlideView
    decreases s.messages.len() - i,
{
    if i >= s.messages.len() {
        Ok(out)
    } else {
        let m = s.messages[i];
        if !has_key(s.participants, m.from) {
            dangling(m.from)
        } else if !has_key(s.participants, m.to) {
            dangling(m.to)
        } else if m.path.route.points.len() == 0 {
            dangling(m.from)
        } else {
            messages(
                connection(
                    out,
                    "Message "@ + decimal(i),
                    m.path,
                    m.label,
                    m.line == LineStyle::Dashed,
                    m.arrow != ArrowType::Plain,
                ),
                s,
                i + 1,
            )
        }
    }
}

/// The shapes of a sequence: its participants and its messages.
pub open spec fn sequence_slide(s: SequenceLayoutView<HeaderEmuView, PathEmuView>) -> SlideView {
    messages(participants(s.participants, s.participants.len() as int), s, 0)
}

/// The shapes of a sequence.
pub fn render_sequence(s: &SequenceLayout<HeaderEmu, PathEmu>) -> (r: Result<Shapes, RenderError>)
    ensures
        slide_view(r) == sequence_slide(s@),
        r matches Ok(x) ==> x.wf(),
{
    let ghost v = s@;
    let mut out = Shapes::new();
    let n: usize = s.participants.len();
    let mut k: usize = 0;
    while k < n
        invariant
            k <= n,
            n == s.participants@.len(),
            v == s@,
            out.wf(),
            out@ == participants(v.participants, k as int),
            out@.len() == 2 * k,
        decreases n - k,
    {
        let p = &s.participants[k];
        assert(v.participants[k as int] == p@);
        let name = concat("Participant ", p.id.as_str());
        out.add_box(name.as_str(), &p.place.header, p.label.as_str());
        let name = concat("Lifeline ", p.id.as_str());
        out.add_connector(name.as_str(), &p.place.lifeline, true, false);
        k = k + 1;
    }
    let mut i: usize = 0;
    while i < s.messages.len()
        invariant
            i <= s.messages@.len(),
            v == s@,
            out.wf(),
            out@.len() <= 2 * n + 2 * i,
            sequence_slide(v) == messages(out@, v, i as int),
        decreases s.messages@.len() - i,
    {
        let m = &s.messages[i];
        assert(v.messages[i as int] == m@);
        if position(s.participants.as_slice(), &m.from).is_none() {
            return Err(dangling_error(&m.from));
        }
        if position(s.participants.as_slice(), &m.to).is_none() {
            return Err(dangling_error(&m.to));
        }
        if m.path.route.points.len() == 0 {
            return Err(dangling_error(&m.from));
        }
        let name = numbered("Message ", i);
        add_connection(
            &mut out,
            name.as_str(),
            &m.path,
            &m.label,
            m.line == LineStyle::Dashed,
            m.arrow != ArrowType::Plain,
        );
        i = i + 1;
    }
    Ok(out)
}

// ---------------------------------------------------------------------------
// Packages
// ---------------------------------------------------------------------------

/// The slide with the given shapes.
pub open spec fn slide_text(shapes: Seq<char>) -> Seq<char> {
    XML_DECL@
        + "<p:sld xmlns:a=\"http://schemas.openxmlformats.org/drawingml/2006/main\" xmlns:r=\"http://schemas.openxmlformats.org/officeDocument/2006/relationships\" xmlns:p=\"http://schemas.openxmlformats.org/presentationml/2006/main\"><p:cSld><p:spTree><p:nvGrpSpPr><p:cNvPr id=\"1\" name=\"\"/><p:cNvGrpSpPr/><p:nvPr/></p:nvGrpSpPr><p:grpSpPr/>"@
        + shapes
        + "</p:spTree></p:cSld><p:clrMapOvr><a:masterClrMapping/></p:clrMapOvr></p:sld>"@
}

/// The slide with the given shapes.
pub fn slide_xml(shapes: &str) -> (r: String)
    ensures
        r@ == slide_text(shapes@),
{
    let mut out = String::from_str(XML_DECL);
    out.append(
        "<p:sld xmlns:a=\"http://schemas.openxmlformats.org/drawingml/2006/main\" xmlns:r=\"http://schemas.openxmlformats.org/officeDocument/2006/relationships\" xmlns:p=\"http://schemas.openxmlformats.org/presentationml/2006/main\"><p:cSld><p:spTree><p:nvGrpSpPr><p:cNvPr id=\"1\" name=\"\"/><p:cNvGrpSpPr/><p:nvPr/></p:nvGrpSpPr><p:grpSpPr/>",
    );
    out.append(shapes);
    out.append("</p:spTree></p:cSld><p:clrMapOvr><a:masterClrMapping/></p:clrMapOvr></p:sld>");
    out
}

/// The part `name` with the text `text`.
pub open spec fn part(name: Seq<char>, text: Seq<char>) -> Stored {
    Stored { name, data: vstd::utf8::encode_utf8(text) }
}

/// The parts of a presentation, in order.
pub open spec fn parts(slide: Seq<char>) -> Seq<Stored> {
    seq![
        part("[Content_Types].xml"@, CONTENT_TYPES@),
        part("_rels/.rels"@, ROOT_RELS@),
        part("docProps/app.xml"@, DOC_PROPS_APP@),
        part("docProps/core.xml"@, DOC_PROPS_CORE@),
        part("ppt/presentation.xml"@, PRESENTATION@),
        part("ppt/_rels/presentation.xml.rels"@, PRESENTATION_RELS@),
        part("ppt/slideMasters/slideMaster1.xml"@, SLIDE_MASTER@),
        part("ppt/slideMasters/_rels/slideMaster1.xml.rels"@, SLIDE_MASTER_RELS@),
        part("ppt/slideLayouts/slideLayout1.xml"@, SLIDE_LAYOUT@),
        part("ppt/slideLayouts/_rels/slideLayout1.xml.rels"@, SLIDE_LAYOUT_RELS@),
        part("ppt/theme/theme1.xml"@, THEME@),
        part("ppt/slides/slide1.xml"@, slide),
        part("ppt/slides/_rels/slide1.xml.rels"@, SLIDE_RELS@),
    ]
}

/// The presentation with the given slide.
pub fn build_pptx(slide: &str) -> (r: Vec<u8>)
    ensures
        r@ == archive(parts(slide@)),
{
    let mut zw = ZipWriter::new();
    zw.add("[Content_Types].xml", CONTENT_TYPES.as_bytes());
    zw.add("_rels/.rels", ROOT_RELS.as_bytes());
    zw.add("docProps/app.xml", DOC_PROPS_APP.as_bytes());
    zw.add("docProps/core.xml", DOC_PROPS_CORE.as_bytes());
    zw.add("ppt/presentation.xml", PRESENTATION.as_bytes());
    zw.add("ppt/_rels/presentation.xml.rels", PRESENTATION_RELS.as_bytes());
    zw.add("ppt/slideMasters/slideMaster1.xml", SLIDE_MASTER.as_bytes());
    zw.add("ppt/slideMasters/_rels/slideMaster1.xml.rels", SLIDE_MASTER_RELS.as_bytes());
    zw.add("ppt/slideLayouts/slideLayout1.xml", SLIDE_LAYOUT.as_bytes());
    zw.add("ppt/slideLayouts/_rels/slideLayout1.xml.rels", SLIDE_LAYOUT_RELS.as_bytes());
    zw.add("ppt/theme/theme1.xml", THEME.as_bytes());
    zw.add("ppt/slides/slide1.xml", slide.as_bytes());
    zw.add("ppt/slides/_rels/slide1.xml.rels", SLIDE_RELS.as_bytes());
    assert(zw@ =~= parts(slide@));
    zw.finish()
}

/// The shapes of a layout, or why there are none.
pub open spec fn layout_slide(
    layout: SemanticLayoutView<RectEmu, PathEmuView, HeaderEmuView, PathEmuView>,
) -> SlideView {
    match layout {
        SemanticLayoutView::Graph(g) => graph_slide(g),
        SemanticLayoutView::State(s) => state_slide(s),
        SemanticLayoutView::Sequence(s) => sequence_slide(s),
        _ => Err(RenderErrorView::UnsupportedDiagram { kind: "unknown"@ }),
    }
}

/// The presentation of a layout, or why there is none.
pub open spec fn presentation(
    layout: SemanticLayoutView<RectEmu, PathEmuView, HeaderEmuView, PathEmuView>,
) -> Result<Seq<u8>, RenderErrorView> {
    match layout_slide(layout) {
        Ok(shapes) => Ok(archive(parts(slide_text(shapes_xml(shapes, shapes.len() as int))))),
        Err(e) => Err(e),
    }
}

/// The model of a presentation, or of why there is none.
pub open spec fn presentation_view(r: Result<Vec<u8>, RenderError>) -> Result<
    Seq<u8>,
    RenderErrorView,
> {
    match r {
        Ok(bytes) => Ok(bytes@),
        Err(e) => Err(e@),
    }
}

/// Exports a layout as a PowerPoint presentation. Class diagrams and
/// entity-relationship diagrams cannot be exported.
pub fn render(layout: &SemanticLayout<RectEmu, PathEmu, HeaderEmu, PathEmu>) -> (r: Result<
    Vec<u8>,
    RenderError,
>)
    ensures
        presentation_view(r) == presentation(layout@),
{
    let shapes = match layout {
        SemanticLayout::Graph(g) => render_graph(g),
        SemanticLayout::State(s) => render_state(s),
        SemanticLayout::Sequence(s) => render_sequence(s),
        SemanticLayout::Class(_) => Err(RenderError::UnsupportedDiagram { kind: "unknown" }),
        SemanticLayout::Er(_) => Err(RenderError::UnsupportedDiagram { kind: "unknown" }),
    };
    match shapes {
        Ok(shapes) => {
            let xml = shapes.into_xml();
            let slide = slide_xml(xml.as_str());
            Ok(build_pptx(slide.as_str()))
        },
        Err(e) => Err(e),
    }
}

// ---------------------------------------------------------------------------
// Laws
// ---------------------------------------------------------------------------

/// Whether every edge, transition or message has a route.
pub open spec fn routed(
    layout: SemanticLayoutView<RectEmu, PathEmuView, HeaderEmuView, PathEmuView>,
) -> bool {
    match layout {
        SemanticLayoutView::Graph(g) => forall|i: int|
            0 <= i < g.edges.len() ==> (#[trigger] g.edges[i]).path.route.points.len() > 0,
        SemanticLayoutView::State(s) => forall|i: int|
            0 <= i < s.transitions.len() ==> (#[trigger] s.transitions[i]).path.route.points.len()
                > 0,
        SemanticLayoutView::Sequence(s) => forall|i: int|
            0 <= i < s.messages.len() ==> (#[trigger] s.messages[i]).path.route.points.len() > 0,
        _ => true,
    }
}

proof fn lemma_edges(
    out: Seq<ShapeView>,
    g: GraphLayoutView<RectEmu, PathEmuView>,
    i: int,
)
    requires
        0 <= i <= g.edges.len(),
        forall|k: int|
            0 <= k < i ==> has_key(g.nodes, (#[trigger] g.edges[k]).from) && has_key(
                g.nodes,
                g.edges[k].to,
            ) && g.edges[k].path.route.points.len() > 0,
    ensures
        edges(out, g, i) is Ok <==> graph_connected(g) && routed(SemanticLayoutView::Graph(g)),
    decreases g.edges.len() - i,
{
    if i < g.edges.len() {
        let e = g.edges[i];
        if has_key(g.nodes, e.from) && has_key(g.nodes, e.to) && e.path.route.points.len() > 0 {
            lemma_edges(
                connection(
                    out,
                    "Edge "@ + decimal(i),
                    e.path,
                    e.label,
                    false,
                    e.arrow != ArrowType::Plain,
                ),
                g,
                i + 1,
            );
        }
    }
}

proof fn lemma_transitions(
    out: Seq<ShapeView>,
    s: StateLayoutView<RectEmu, PathEmuView>,
    i: int,
)
    requires
        0 <= i <= s.transitions.len(),
        forall|k: int|
            0 <= k < i ==> end_there(s, (#[trigger] s.transitions[k]).from) && end_there(
                s,
                s.transitions[k].to,
            ) && s.transitions[k].path.route.points.len() > 0,
    ensures
        transitions(out, s, i) is Ok <==> states_connected(s) && routed(
            SemanticLayoutView::State(s),
        ),
    decreases s.transitions.len() - i,
{
    if i < s.transitions.len() {
        let t = s.transitions[i];
        if missing(s, t.from) is None && missing(s, t.to) is None && t.path.route.points.len()
            > 0 {
            lemma_transitions(
                connection(out, "Transition "@ + decimal(i), t.path, t.label, false, true),
                s,
                i + 1,
            );
        }
    }
}

proof fn lemma_messages(
    out: Seq<ShapeView>,
    s: SequenceLayoutView<HeaderEmuView, PathEmuView>,
    i: int,
)
    requires
        0 <= i <= s.messages.len(),
        forall|k: int|
            0 <= k < i ==> has_key(s.participants, (#[trigger] s.messages[k]).from) && has_key(
                s.participants,
                s.messages[k].to,
            ) && s.messages[k].path.route.points.len() > 0,
    ensures
        messages(out, s, i) is Ok <==> sequence_connected(s) && routed(
            SemanticLayoutView::Sequence(s),
        ),
    decreases s.messages.len() - i,
{
    if i < s.messages.len() {
        let m = s.messages[i];
        if has_key(s.participants, m.from) && has_key(s.participants, m.to)
            && m.path.route.points.len() > 0 {
            lemma_messages(
                connection(
                    out,
                    "Message "@ + decimal(i),
                    m.path,
                    m.label,
                    m.line == LineStyle::Dashed,
                    m.arrow != ArrowType::Plain,
                ),
                s,
                i + 1,
            );
        }
    }
}

/// A layout is shown exactly if it is a graph, a state machine or a sequence,
/// what it connects is there, and everything that connects has a route.
pub proof fn law_connected_layouts_are_shown(
    layout: SemanticLayoutView<RectEmu, PathEmuView, HeaderEmuView, PathEmuView>,
)
    ensures
        presentation(layout) is Ok <==> connected(layout) && routed(layout) && layout !is Class
            && layout !is Er,
{
    match layout {
        SemanticLayoutView::Graph(g) => {
            lemma_edges(nodes(g.nodes, g.nodes.len() as int), g, 0);
        },
        SemanticLayoutView::State(s) => {
            lemma_transitions(
                pseudostates(states(s.states, s.states.len() as int), s),
                s,
                0,
            );
        },
        SemanticLayoutView::Sequence(s) => {
            lemma_messages(participants(s.participants, s.participants.len() as int), s, 0);
        },
        _ => {},
    }
}

} // verus!
