//! Diagrams that have been laid out: what the exporters that draw read.
//!
//! A layout says what is drawn and in which order. Where it is drawn is held in
//! a form that each exporter chooses: `R` is where a box lies, `C` how a
//! connection runs, `H` where a participant stands and `M` how a message runs.
use crate::ir::{
    has_key, ArrowType, EndMarker, Endpoint, EndpointView, Identified, LineStyle, LineWeight,
    Named, NodeKind, ParticipantKind, Port, State,
};
use crate::text::{opt_view, views};
use vstd::prelude::*;

verus! {

/// A container of a graph.
#[derive(Debug)]
pub struct ContainerLayout<R> {
    /// Its id.
    pub id: String,
    /// The text it shows.
    pub label: Option<String>,
    /// Where it lies.
    pub rect: R,
}

/// The model of [`ContainerLayout`].
#[verifier::ext_equal]
pub struct ContainerLayoutView<RV> {
    pub id: Seq<char>,
    pub label: Option<Seq<char>>,
    pub rect: RV,
}

impl<R: View> View for ContainerLayout<R> {
    type V = ContainerLayoutView<R::V>;

    open spec fn view(&self) -> ContainerLayoutView<R::V> {
        ContainerLayoutView {
            id: self.id@,
            label: opt_view(self.label),
            rect: self.rect@,
        }
    }
}

/// A node of a graph.
#[derive(Debug)]
pub struct NodeLayout<R> {
    /// Its id.
    pub id: String,
    /// The text it shows.
    pub label: String,
    /// Its shape.
    pub kind: NodeKind,
    /// Where it lies.
    pub rect: R,
}

/// The model of [`NodeLayout`].
#[verifier::ext_equal]
pub struct NodeLayoutView<RV> {
    pub id: Seq<char>,
    pub label: Seq<char>,
    pub kind: NodeKind,
    pub rect: RV,
}

impl<R: View> View for NodeLayout<R> {
    type V = NodeLayoutView<R::V>;

    open spec fn view(&self) -> NodeLayoutView<R::V> {
        NodeLayoutView {
            id: self.id@,
            label: self.label@,
            kind: self.kind,
            rect: self.rect@,
        }
    }
}

impl<RV> Named for NodeLayoutView<RV> {
    open spec fn key(self) -> Seq<char> {
        self.id
    }
}

impl<R: View> Identified for NodeLayout<R> {
    fn id(&self) -> (r: &String) {
        &self.id
    }
}

/// An edge of a graph.
#[derive(Debug)]
pub struct EdgeLayout<C> {
    /// The id of the source node.
    pub from: String,
    /// The id of the target node.
    pub to: String,
    /// The text on the edge.
    pub label: Option<String>,
    /// The head at the target.
    pub arrow: ArrowType,
    /// The head at the source.
    pub from_arrow: ArrowType,
    /// How the line is drawn.
    pub line: LineStyle,
    /// How heavy the line is.
    pub weight: LineWeight,
    /// The side of the source node.
    pub from_port: Option<Port>,
    /// The side of the target node.
    pub to_port: Option<Port>,
    /// How it runs.
    pub path: C,
}

/// The model of [`EdgeLayout`].
#[verifier::ext_equal]
pub struct EdgeLayoutView<CV> {
    pub from: Seq<char>,
    pub to: Seq<char>,
    pub label: Option<Seq<char>>,
    pub arrow: ArrowType,
    pub from_arrow: ArrowType,
    pub line: LineStyle,
    pub weight: LineWeight,
    pub from_port: Option<Port>,
    pub to_port: Option<Port>,
    pub path: CV,
}

impl<C: View> View for EdgeLayout<C> {
    type V = EdgeLayoutView<C::V>;

    open spec fn view(&self) -> EdgeLayoutView<C::V> {
        EdgeLayoutView {
            from: self.from@,
            to: self.to@,
            label: opt_view(self.label),
            arrow: self.arrow,
            from_arrow: self.from_arrow,
            line: self.line,
            weight: self.weight,
            from_port: self.from_port,
            to_port: self.to_port,
            path: self.path@,
        }
    }
}

/// A graph. A container comes before those inside it.
#[derive(Debug)]
pub struct GraphLayout<R, C> {
    /// The containers.
    pub containers: Vec<ContainerLayout<R>>,
    /// The nodes.
    pub nodes: Vec<NodeLayout<R>>,
    /// The edges.
    pub edges: Vec<EdgeLayout<C>>,
}

/// The model of [`GraphLayout`].
#[verifier::ext_equal]
pub struct GraphLayoutView<RV, CV> {
    pub containers: Seq<ContainerLayoutView<RV>>,
    pub nodes: Seq<NodeLayoutView<RV>>,
    pub edges: Seq<EdgeLayoutView<CV>>,
}

impl<R: View, C: View> View for GraphLayout<R, C> {
    type V = GraphLayoutView<R::V, C::V>;

    open spec fn view(&self) -> GraphLayoutView<R::V, C::V> {
        GraphLayoutView {
            containers: views(self.containers@),
            nodes: views(self.nodes@),
            edges: views(self.edges@),
        }
    }
}

/// A state.
#[derive(Debug)]
pub struct StateBox<R> {
    /// Its id.
    pub id: String,
    /// The text it shows.
    pub label: String,
    /// Where it lies.
    pub rect: R,
}

/// The model of [`StateBox`].
#[verifier::ext_equal]
pub struct StateBoxView<RV> {
    pub id: Seq<char>,
    pub label: Seq<char>,
    pub rect: RV,
}

impl<R: View> View for StateBox<R> {
    type V = StateBoxView<R::V>;

    open spec fn view(&self) -> StateBoxView<R::V> {
        StateBoxView {
            id: self.id@,
            label: self.label@,
            rect: self.rect@,
        }
    }
}

impl<RV> Named for StateBoxView<RV> {
    open spec fn key(self) -> Seq<char> {
        self.id
    }
}

impl<R: View> Identified for StateBox<R> {
    fn id(&self) -> (r: &String) {
        &self.id
    }
}

/// The final pseudostate: a ring around a dot.
#[derive(Debug)]
pub struct FinalLayout<R> {
    /// Where the ring lies.
    pub outer: R,
    /// Where the dot lies.
    pub inner: R,
}

/// The model of [`FinalLayout`].
#[verifier::ext_equal]
pub struct FinalLayoutView<RV> {
    pub outer: RV,
    pub inner: RV,
}

impl<R: View> View for FinalLayout<R> {
    type V = FinalLayoutView<R::V>;

    open spec fn view(&self) -> FinalLayoutView<R::V> {
        FinalLayoutView {
            outer: self.outer@,
            inner: self.inner@,
        }
    }
}

/// A transition.
#[derive(Debug)]
pub struct TransitionLayout<C> {
    /// Where it starts.
    pub from: Endpoint,
    /// Where it ends.
    pub to: Endpoint,
    /// The text on it.
    pub label: Option<String>,
    /// How it runs.
    pub path: C,
}

/// The model of [`TransitionLayout`].
#[verifier::ext_equal]
pub struct TransitionLayoutView<CV> {
    pub from: EndpointView,
    pub to: EndpointView,
    pub label: Option<Seq<char>>,
    pub path: CV,
}

impl<C: View> View for TransitionLayout<C> {
    type V = TransitionLayoutView<C::V>;

    open spec fn view(&self) -> TransitionLayoutView<C::V> {
        TransitionLayoutView {
            from: self.from@,
            to: self.to@,
            label: opt_view(self.label),
            path: self.path@,
        }
    }
}

/// A state diagram.
#[derive(Debug)]
pub struct StateLayout<R, C> {
    /// The states.
    pub states: Vec<StateBox<R>>,
    /// Where the initial pseudostate lies.
    pub initial: Option<R>,
    /// The final pseudostate.
    pub final_state: Option<FinalLayout<R>>,
    /// The transitions.
    pub transitions: Vec<TransitionLayout<C>>,
}

/// The model of [`StateLayout`].
#[verifier::ext_equal]
pub struct StateLayoutView<RV, CV> {
    pub states: Seq<StateBoxView<RV>>,
    pub initial: Option<RV>,
    pub final_state: Option<FinalLayoutView<RV>>,
    pub transitions: Seq<TransitionLayoutView<CV>>,
}

impl<R: View, C: View> View for StateLayout<R, C> {
    type V = StateLayoutView<R::V, C::V>;

    open spec fn view(&self) -> StateLayoutView<R::V, C::V> {
        StateLayoutView {
            states: views(self.states@),
            initial: opt_view(self.initial),
            final_state: opt_view(self.final_state),
            transitions: views(self.transitions@),
        }
    }
}

/// A participant of a sequence.
#[derive(Debug)]
pub struct ParticipantLayout<H> {
    /// Its id.
    pub id: String,
    /// The text it shows.
    pub label: String,
    /// What it stands for.
    pub kind: ParticipantKind,
    /// Where it stands.
    pub place: H,
}

/// The model of [`ParticipantLayout`].
#[verifier::ext_equal]
pub struct ParticipantLayoutView<HV> {
    pub id: Seq<char>,
    pub label: Seq<char>,
    pub kind: ParticipantKind,
    pub place: HV,
}

impl<H: View> View for ParticipantLayout<H> {
    type V = ParticipantLayoutView<H::V>;

    open spec fn view(&self) -> ParticipantLayoutView<H::V> {
        ParticipantLayoutView {
            id: self.id@,
            label: self.label@,
            kind: self.kind,
            place: self.place@,
        }
    }
}

impl<HV> Named for ParticipantLayoutView<HV> {
    open spec fn key(self) -> Seq<char> {
        self.id
    }
}

impl<H: View> Identified for ParticipantLayout<H> {
    fn id(&self) -> (r: &String) {
        &self.id
    }
}

/// A message of a sequence.
#[derive(Debug)]
pub struct MessageLayout<M> {
    /// The id of the sender.
    pub from: String,
    /// The id of the receiver.
    pub to: String,
    /// The text on it.
    pub label: Option<String>,
    /// How the line is drawn.
    pub line: LineStyle,
    /// The head at the receiver.
    pub arrow: ArrowType,
    /// How it runs.
    pub path: M,
}

/// The model of [`MessageLayout`].
#[verifier::ext_equal]
pub struct MessageLayoutView<MV> {
    pub from: Seq<char>,
    pub to: Seq<char>,
    pub label: Option<Seq<char>>,
    pub line: LineStyle,
    pub arrow: ArrowType,
    pub path: MV,
}

impl<M: View> View for MessageLayout<M> {
    type V = MessageLayoutView<M::V>;

    open spec fn view(&self) -> MessageLayoutView<M::V> {
        MessageLayoutView {
            from: self.from@,
            to: self.to@,
            label: opt_view(self.label),
            line: self.line,
            arrow: self.arrow,
            path: self.path@,
        }
    }
}

/// A sequence.
#[derive(Debug)]
pub struct SequenceLayout<H, M> {
    /// The participants.
    pub participants: Vec<ParticipantLayout<H>>,
    /// The messages.
    pub messages: Vec<MessageLayout<M>>,
}

/// The model of [`SequenceLayout`].
#[verifier::ext_equal]
pub struct SequenceLayoutView<HV, MV> {
    pub participants: Seq<ParticipantLayoutView<HV>>,
    pub messages: Seq<MessageLayoutView<MV>>,
}

impl<H: View, M: View> View for SequenceLayout<H, M> {
    type V = SequenceLayoutView<H::V, M::V>;

    open spec fn view(&self) -> SequenceLayoutView<H::V, M::V> {
        SequenceLayoutView {
            participants: views(self.participants@),
            messages: views(self.messages@),
        }
    }
}

/// A compartment of a class or entity box.
#[derive(Debug)]
pub struct Compartment {
    /// Its rows.
    pub rows: Vec<String>,
}

/// The model of [`Compartment`].
#[verifier::ext_equal]
pub struct CompartmentView {
    pub rows: Seq<Seq<char>>,
}

impl View for Compartment {
    type V = CompartmentView;

    open spec fn view(&self) -> CompartmentView {
        CompartmentView {
            rows: views(self.rows@),
        }
    }
}

/// A class or an entity.
#[derive(Debug)]
pub struct CompartmentBox<R> {
    /// Its id.
    pub id: String,
    /// The title.
    pub title: String,
    /// What stands above the title.
    pub stereotype: Option<String>,
    /// The compartments.
    pub compartments: Vec<Compartment>,
    /// Where it lies.
    pub rect: R,
}

/// The model of [`CompartmentBox`].
#[verifier::ext_equal]
pub struct CompartmentBoxView<RV> {
    pub id: Seq<char>,
    pub title: Seq<char>,
    pub stereotype: Option<Seq<char>>,
    pub compartments: Seq<CompartmentView>,
    pub rect: RV,
}

impl<R: View> View for CompartmentBox<R> {
    type V = CompartmentBoxView<R::V>;

    open spec fn view(&self) -> CompartmentBoxView<R::V> {
        CompartmentBoxView {
            id: self.id@,
            title: self.title@,
            stereotype: opt_view(self.stereotype),
            compartments: views(self.compartments@),
            rect: self.rect@,
        }
    }
}

impl<RV> Named for CompartmentBoxView<RV> {
    open spec fn key(self) -> Seq<char> {
        self.id
    }
}

impl<R: View> Identified for CompartmentBox<R> {
    fn id(&self) -> (r: &String) {
        &self.id
    }
}

/// A relation between two classes or entities.
#[derive(Debug)]
pub struct RelationLayout<C> {
    /// The id of the first.
    pub from: String,
    /// The id of the second.
    pub to: String,
    /// The marker at the first.
    pub from_marker: EndMarker,
    /// The marker at the second.
    pub to_marker: EndMarker,
    /// How the line is drawn.
    pub line: LineStyle,
    /// The text on it.
    pub label: Option<String>,
    /// The multiplicity at the first.
    pub from_mult: Option<String>,
    /// The multiplicity at the second.
    pub to_mult: Option<String>,
    /// How it runs.
    pub path: C,
}

/// The model of [`RelationLayout`].
#[verifier::ext_equal]
pub struct RelationLayoutView<CV> {
    pub from: Seq<char>,
    pub to: Seq<char>,
    pub from_marker: EndMarker,
    pub to_marker: EndMarker,
    pub line: LineStyle,
    pub label: Option<Seq<char>>,
    pub from_mult: Option<Seq<char>>,
    pub to_mult: Option<Seq<char>>,
    pub path: CV,
}

impl<C: View> View for RelationLayout<C> {
    type V = RelationLayoutView<C::V>;

    open spec fn view(&self) -> RelationLayoutView<C::V> {
        RelationLayoutView {
            from: self.from@,
            to: self.to@,
            from_marker: self.from_marker,
            to_marker: self.to_marker,
            line: self.line,
            label: opt_view(self.label),
            from_mult: opt_view(self.from_mult),
            to_mult: opt_view(self.to_mult),
            path: self.path@,
        }
    }
}

/// A class diagram or an entity-relationship diagram.
#[derive(Debug)]
pub struct ClassLayout<R, C> {
    /// The classes or entities.
    pub boxes: Vec<CompartmentBox<R>>,
    /// The relations.
    pub relations: Vec<RelationLayout<C>>,
}

/// The model of [`ClassLayout`].
#[verifier::ext_equal]
pub struct ClassLayoutView<RV, CV> {
    pub boxes: Seq<CompartmentBoxView<RV>>,
    pub relations: Seq<RelationLayoutView<CV>>,
}

impl<R: View, C: View> View for ClassLayout<R, C> {
    type V = ClassLayoutView<R::V, C::V>;

    open spec fn view(&self) -> ClassLayoutView<R::V, C::V> {
        ClassLayoutView {
            boxes: views(self.boxes@),
            relations: views(self.relations@),
        }
    }
}

/// A diagram that has been laid out.
#[derive(Debug)]
pub enum SemanticLayout<R, C, H, M> {
    /// A graph.
    Graph(GraphLayout<R, C>),
    /// A state diagram.
    State(StateLayout<R, C>),
    /// A sequence.
    Sequence(SequenceLayout<H, M>),
    /// A class diagram.
    Class(ClassLayout<R, C>),
    /// An entity-relationship diagram.
    Er(ClassLayout<R, C>),
}

/// The model of [`SemanticLayout`].
#[verifier::ext_equal]
pub enum SemanticLayoutView<RV, CV, HV, MV> {
    Graph(GraphLayoutView<RV, CV>),
    State(StateLayoutView<RV, CV>),
    Sequence(SequenceLayoutView<HV, MV>),
    Class(ClassLayoutView<RV, CV>),
    Er(ClassLayoutView<RV, CV>),
}

impl<R: View, C: View, H: View, M: View> View for SemanticLayout<R, C, H, M> {
    type V = SemanticLayoutView<R::V, C::V, H::V, M::V>;

    open spec fn view(&self) -> SemanticLayoutView<R::V, C::V, H::V, M::V> {
        match self {
            SemanticLayout::Graph(l) => SemanticLayoutView::Graph(l@),
            SemanticLayout::State(l) => SemanticLayoutView::State(l@),
            SemanticLayout::Sequence(l) => SemanticLayoutView::Sequence(l@),
            SemanticLayout::Class(l) => SemanticLayoutView::Class(l@),
            SemanticLayout::Er(l) => SemanticLayoutView::Er(l@),
        }
    }
}

// ---------------------------------------------------------------------------
// What is connected
// ---------------------------------------------------------------------------

/// Whether both ends of every edge are nodes.
pub open spec fn graph_connected<RV, CV>(g: GraphLayoutView<RV, CV>) -> bool {
    forall|i: int|
        0 <= i < g.edges.len() ==> has_key(g.nodes, (#[trigger] g.edges[i]).from) && has_key(
            g.nodes,
            g.edges[i].to,
        )
}

/// Whether an end of a transition is there.
pub open spec fn end_there<RV, CV>(s: StateLayoutView<RV, CV>, e: EndpointView) -> bool {
    match e {
        EndpointView::State(id) => has_key(s.states, id),
        EndpointView::Initial => s.initial is Some,
        EndpointView::Final => s.final_state is Some,
    }
}

/// Whether both ends of every transition are there.
pub open spec fn states_connected<RV, CV>(s: StateLayoutView<RV, CV>) -> bool {
    forall|i: int|
        0 <= i < s.transitions.len() ==> end_there(s, (#[trigger] s.transitions[i]).from)
            && end_there(s, s.transitions[i].to)
}

/// Whether both ends of every message are participants.
pub open spec fn sequence_connected<HV, MV>(s: SequenceLayoutView<HV, MV>) -> bool {
    forall|i: int|
        0 <= i < s.messages.len() ==> has_key(s.participants, (#[trigger] s.messages[i]).from)
            && has_key(s.participants, s.messages[i].to)
}

/// Whether both ends of every relation are boxes.
pub open spec fn classes_connected<RV, CV>(c: ClassLayoutView<RV, CV>) -> bool {
    forall|i: int|
        0 <= i < c.relations.len() ==> has_key(c.boxes, (#[trigger] c.relations[i]).from)
            && has_key(c.boxes, c.relations[i].to)
}

/// Whether what is connected is there.
pub open spec fn connected<RV, CV, HV, MV>(l: SemanticLayoutView<RV, CV, HV, MV>) -> bool {
    match l {
        SemanticLayoutView::Graph(g) => graph_connected(g),
        SemanticLayoutView::State(s) => states_connected(s),
        SemanticLayoutView::Sequence(s) => sequence_connected(s),
        SemanticLayoutView::Class(c) => classes_connected(c),
        SemanticLayoutView::Er(c) => classes_connected(c),
    }
}

} // verus!
