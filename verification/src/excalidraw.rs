//! Laid-out diagrams as Excalidraw scenes.
//!
//! A scene is a list of elements. Ids follow from positions in the layout: boxes
//! are `n0`, `n1` and so on, paths `e0`, `e1` and so on, containers `c0`, `c1`
//! and so on, and what belongs to one of these has its id and a suffix. The seed
//! of an element is its position in the scene, counted from one, so that the
//! same diagram always looks the same.
use crate::excalidraw::class::{class_scene, render_class, render_er};
use crate::excalidraw::elements::{Element, ElementView};
use crate::excalidraw::graph::{graph_scene, render_graph};
use crate::excalidraw::sequence::{render_sequence, sequence_scene};
use crate::excalidraw::state::{render_state, state_scene};
use crate::layout::{SemanticLayout, SemanticLayoutView};
use crate::text::{concat, concat3, views};
use vstd::prelude::*;

pub mod bindings;
pub mod class;
pub mod elements;
pub mod graph;
pub mod ids;
pub mod laws;
pub mod sequence;
pub mod state;

verus! {

/// Why a layout cannot be exported.
#[derive(Debug, Clone, PartialEq)]
pub enum RenderError {
    /// There is no way to show a diagram of this kind.
    UnsupportedDiagram {
        /// The kind.
        kind: &'static str,
    },
    /// An edge, a message or a relation names a box that is not there.
    DanglingEdge {
        /// The id that is not there.
        node_id: String,
    },
    /// A transition names an end that is not there.
    UnknownEndpoint {
        /// What is not there.
        description: String,
    },
    /// There is no way to show a node of this kind.
    UnknownNodeKind {
        /// The kind.
        description: String,
    },
    /// There is no way to show this.
    InvalidSemantic {
        /// What cannot be shown.
        description: String,
    },
    /// The scene cannot be written as JSON.
    Serialization {
        /// Why.
        message: String,
    },
}

/// The model of [`RenderError`].
#[verifier::ext_equal]
pub enum RenderErrorView {
    UnsupportedDiagram { kind: Seq<char> },
    DanglingEdge { node_id: Seq<char> },
    UnknownEndpoint { description: Seq<char> },
    UnknownNodeKind { description: Seq<char> },
    InvalidSemantic { description: Seq<char> },
    Serialization { message: Seq<char> },
}

impl View for RenderError {
    type V = RenderErrorView;

    open spec fn view(&self) -> RenderErrorView {
        match self {
            RenderError::UnsupportedDiagram { kind } => RenderErrorView::UnsupportedDiagram {
                kind: kind@,
            },
            RenderError::DanglingEdge { node_id } => RenderErrorView::DanglingEdge {
                node_id: node_id@,
            },
            RenderError::UnknownEndpoint { description } => RenderErrorView::UnknownEndpoint {
                description: description@,
            },
            RenderError::UnknownNodeKind { description } => RenderErrorView::UnknownNodeKind {
                description: description@,
            },
            RenderError::InvalidSemantic { description } => RenderErrorView::InvalidSemantic {
                description: description@,
            },
            RenderError::Serialization { message } => RenderErrorView::Serialization {
                message: message@,
            },
        }
    }
}

/// What an error says.
pub open spec fn error_text(e: RenderErrorView) -> Seq<char> {
    match e {
        RenderErrorView::UnsupportedDiagram { kind } => "Excalidraw export does not support "@
            + kind + " diagrams"@,
        RenderErrorView::DanglingEdge { node_id } =>
            "Excalidraw export: edge references unknown node \""@ + node_id + "\""@,
        RenderErrorView::UnknownEndpoint { description } =>
            "Excalidraw export: cannot resolve transition endpoint: "@ + description,
        RenderErrorView::UnknownNodeKind { description } =>
            "Excalidraw export: unknown graph node kind: "@ + description,
        RenderErrorView::InvalidSemantic { description } =>
            "Excalidraw export: invalid semantic value: "@ + description,
        RenderErrorView::Serialization { message } =>
            "Excalidraw export: JSON serialization failed: "@ + message,
    }
}

impl RenderError {
    /// What the error says.
    pub fn to_string(&self) -> (r: String)
        ensures
            r@ == error_text(self@),
    {
        match self {
            RenderError::UnsupportedDiagram { kind } => concat3(
                "Excalidraw export does not support ",
                *kind,
                " diagrams",
            ),
            RenderError::DanglingEdge { node_id } => concat3(
                "Excalidraw export: edge references unknown node \"",
                node_id.as_str(),
                "\"",
            ),
            RenderError::UnknownEndpoint { description } => concat(
                "Excalidraw export: cannot resolve transition endpoint: ",
                description.as_str(),
            ),
            RenderError::UnknownNodeKind { description } => concat(
                "Excalidraw export: unknown graph node kind: ",
                description.as_str(),
            ),
            RenderError::InvalidSemantic { description } => concat(
                "Excalidraw export: invalid semantic value: ",
                description.as_str(),
            ),
            RenderError::Serialization { message } => concat(
                "Excalidraw export: JSON serialization failed: ",
                message.as_str(),
            ),
        }
    }
}

/// A list of elements, or why there is none.
pub type SceneView = Result<Seq<ElementView>, RenderErrorView>;

/// The model of a list of elements, or of why there is none.
pub open spec fn scene_view(r: Result<Vec<Element>, RenderError>) -> SceneView {
    match r {
        Ok(v) => Ok(views(v@)),
        Err(e) => Err(e@),
    }
}

/// The elements with their seeds.
pub open spec fn seeded(elements: Seq<ElementView>) -> Seq<ElementView> {
    Seq::new(elements.len(), |i: int| ElementView { seed: i + 1, ..elements[i] })
}

/// A scene.
#[derive(Debug, Clone, PartialEq, Eq)]
pub struct ExportedDataState {
    /// The format.
    pub kind: &'static str,
    /// The version of the format.
    pub version: u32,
    /// What made the scene.
    pub source: &'static str,
    /// The elements.
    pub elements: Vec<Element>,
    /// The color of the background.
    pub view_background_color: &'static str,
}

/// The model of [`ExportedDataState`].
#[verifier::ext_equal]
pub struct ExportedDataStateView {
    pub kind: Seq<char>,
    pub version: u32,
    pub source: Seq<char>,
    pub elements: Seq<ElementView>,
    pub view_background_color: Seq<char>,
}

impl View for ExportedDataState {
    type V = ExportedDataStateView;

    open spec fn view(&self) -> ExportedDataStateView {
        ExportedDataStateView {
            kind: self.kind@,
            version: self.version,
            source: self.source@,
            elements: views(self.elements@),
            view_background_color: self.view_background_color@,
        }
    }
}

/// The elements of a layout, without their seeds.
pub open spec fn layout_scene<RV, CV, HV, MV>(
    layout: SemanticLayoutView<RV, CV, HV, MV>,
) -> SceneView {
    match layout {
        SemanticLayoutView::Graph(g) => graph_scene(g),
        SemanticLayoutView::State(s) => state_scene(s),
        SemanticLayoutView::Sequence(s) => sequence_scene(s),
        SemanticLayoutView::Class(c) => class_scene(c),
        SemanticLayoutView::Er(c) => class_scene(c),
    }
}

/// The scene of a layout, or why there is none.
pub open spec fn exported<RV, CV, HV, MV>(layout: SemanticLayoutView<RV, CV, HV, MV>) -> Result<
    ExportedDataStateView,
    RenderErrorView,
> {
    match layout_scene(layout) {
        Ok(elements) => Ok(
            ExportedDataStateView {
                kind: "excalidraw"@,
                version: 2,
                source: "kozue"@,
                elements: seeded(elements),
                view_background_color: "#ffffff"@,
            },
        ),
        Err(e) => Err(e),
    }
}

/// The model of a scene, or of why there is none.
pub open spec fn exported_view(r: Result<ExportedDataState, RenderError>) -> Result<
    ExportedDataStateView,
    RenderErrorView,
> {
    match r {
        Ok(s) => Ok(s@),
        Err(e) => Err(e@),
    }
}

/// Gives each element its seed: its position, counted from one.
pub fn assign_seeds(elements: &mut Vec<Element>)
    ensures
        views(final(elements)@) == seeded(views(old(elements)@)),
{
    let ghost start = elements@;
    let n: usize = elements.len();
    let mut i: usize = 0;
    while i < n
        invariant
            i <= n,
            n == start.len(),
            elements@.len() == n,
            forall|k: int| i <= k < n ==> elements@[k] == start[k],
            forall|k: int|
                0 <= k < i ==> (#[trigger] elements@[k])@ == (ElementView {
                    seed: k + 1,
                    ..start[k]@
                }),
        decreases n - i,
    {
        let e = &mut elements[i];
        e.seed = i as u64 + 1;
        i = i + 1;
    }
    assert(views(elements@) =~= seeded(views(start)));
}

/// Exports a layout as an Excalidraw scene.
pub fn render<R: View, C: View, H: View, M: View>(layout: &SemanticLayout<R, C, H, M>) -> (r: Result<
    ExportedDataState,
    RenderError,
>)
    ensures
        exported_view(r) == exported(layout@),
{
    let elements = match layout {
        SemanticLayout::Graph(g) => render_graph(g),
        SemanticLayout::State(s) => render_state(s),
        SemanticLayout::Sequence(s) => render_sequence(s),
        SemanticLayout::Class(c) => render_class(c),
        SemanticLayout::Er(c) => render_er(c),
    };
    match elements {
        Ok(elements) => {
            let mut elements = elements;
            assign_seeds(&mut elements);
            Ok(
                ExportedDataState {
                    kind: "excalidraw",
                    version: 2,
                    source: "kozue",
                    elements,
                    view_background_color: "#ffffff",
                },
            )
        },
        Err(e) => Err(e),
    }
}

} // verus!
