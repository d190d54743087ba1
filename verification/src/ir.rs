//! The diagrams: what the frontends produce and the exporters read.
//!
//! Each type has a model, its name followed by `View`, in which strings are
//! `Seq<char>` and vectors are `Seq`. A list that is looked up by id keeps the
//! order of declaration.
use crate::text::{opt_int, opt_view, views};
use vstd::prelude::*;

verus! {

/// The direction in which a diagram grows.
#[derive(Debug, Clone, Copy, PartialEq, Eq, Structural)]
pub enum Direction {
    /// Top to bottom.
    Down,
    /// Left to right.
    Right,
    /// Bottom to top.
    Up,
    /// Right to left.
    Left,
}

/// The head of an arrow.
#[derive(Debug, Clone, Copy, PartialEq, Eq, Structural)]
pub enum ArrowType {
    /// No head.
    Plain,
    /// A filled triangle.
    Triangle,
}

/// How a line is drawn.
#[derive(Debug, Clone, Copy, PartialEq, Eq, Structural)]
pub enum LineStyle {
    /// Unbroken.
    Solid,
    /// Dashes.
    Dashed,
    /// Dots.
    Dotted,
}

/// How heavy a line is.
#[derive(Debug, Clone, Copy, PartialEq, Eq, Structural)]
pub enum LineWeight {
    /// The usual weight.
    Normal,
    /// A heavy line.
    Thick,
}

/// The shape of a graph node.
#[derive(Debug, Clone, Copy, PartialEq, Eq, Structural)]
pub enum NodeKind {
    /// No shape was asked for.
    Default,
    /// Square corners.
    Rectangle,
    /// Rounded corners.
    RoundedRectangle,
    /// A circle.
    Circle,
    /// A diamond.
    Diamond,
}

/// The side of a node at which an edge is attached.
#[derive(Debug, Clone, Copy, PartialEq, Eq, Structural)]
pub enum Port {
    /// The top.
    North,
    /// The right side.
    East,
    /// The bottom.
    South,
    /// The left side.
    West,
}

/// What a sequence participant stands for.
#[derive(Debug, Clone, Copy, PartialEq, Eq, Structural)]
pub enum ParticipantKind {
    /// Nothing in particular.
    Default,
    /// A person.
    Actor,
    /// A boundary.
    Boundary,
    /// A control.
    Control,
    /// An entity.
    Entity,
    /// A database.
    Database,
    /// A collection.
    Collections,
    /// A queue.
    Queue,
}

/// The marker at one end of a class or entity relation.
#[derive(Debug, Clone, Copy, PartialEq, Eq, Structural)]
pub enum EndMarker {
    /// No marker.
    Plain,
    /// Inheritance or realization.
    HollowTriangle,
    /// Association or dependency.
    OpenArrow,
    /// Composition.
    FilledDiamond,
    /// Aggregation.
    HollowDiamond,
    /// Exactly one.
    ErOne,
    /// Many.
    ErMany,
    /// Zero or one.
    ErZeroOrOne,
    /// One or more.
    ErOneOrMany,
    /// Zero or more.
    ErZeroOrMany,
}

// ---------------------------------------------------------------------------
// Lists that are looked up by id
// ---------------------------------------------------------------------------

/// A model with an id.
pub trait Named: Sized {
    /// The id.
    spec fn key(self) -> Seq<char>;
}

/// A value whose model has an id.
pub trait Identified: View where <Self as View>::V: Named {
    /// The id.
    fn id(&self) -> (r: &String)
        ensures
            r@ == self@.key(),
    ;
}

/// The first index from `i` on whose item has the id `id`.
pub open spec fn key_from<M: Named>(s: Seq<M>, id: Seq<char>, i: int) -> Option<int>
    decreases s.len() - i,
{
    if 0 <= i < s.len() {
        if s[i].key() == id {
            Some(i)
        } else {
            key_from(s, id, i + 1)
        }
    } else {
        None
    }
}

/// The index of the first item with the id `id`.
pub open spec fn key_index<M: Named>(s: Seq<M>, id: Seq<char>) -> Option<int> {
    key_from(s, id, 0)
}

/// Whether an item has the id `id`.
pub open spec fn has_key<M: Named>(s: Seq<M>, id: Seq<char>) -> bool {
    key_index(s, id) is Some
}

/// No two items have the same id.
pub open spec fn distinct_keys<M: Named>(s: Seq<M>) -> bool {
    forall|i: int, j: int| 0 <= i < j < s.len() ==> s[i].key() != s[j].key()
}

pub proof fn lemma_key_from<M: Named>(s: Seq<M>, id: Seq<char>, i: int)
    requires
        0 <= i <= s.len(),
    ensures
        key_from(s, id, i) matches Some(k) ==> i <= k < s.len() && s[k].key() == id,
        key_from(s, id, i) is None ==> (forall|j: int| i <= j < s.len() ==> s[j].key() != id),
    decreases s.len() - i,
{
    if i < s.len() && s[i].key() != id {
        lemma_key_from(s, id, i + 1);
    }
}

/// Adding an item with a fresh id keeps the ids distinct.
pub proof fn lemma_distinct_push<M: Named>(s: Seq<M>, x: M)
    requires
        distinct_keys(s),
        !has_key(s, x.key()),
    ensures
        distinct_keys(s.push(x)),
{
    lemma_key_from(s, x.key(), 0);
}

/// Replacing an item by one with the same id keeps the ids distinct.
pub proof fn lemma_distinct_update<M: Named>(s: Seq<M>, i: int, x: M)
    requires
        distinct_keys(s),
        0 <= i < s.len(),
        x.key() == s[i].key(),
    ensures
        distinct_keys(s.update(i, x)),
{
    assert forall|a: int, b: int| 0 <= a < b < s.len() implies s.update(i, x)[a].key() != s.update(
        i,
        x,
    )[b].key() by {
        assert(s[a].key() != s[b].key());
    }
}

/// The index of the first item with the id `id`.
pub fn position<T: Identified>(items: &[T], id: &String) -> (r: Option<usize>) where
    <T as View>::V: Named,

    ensures
        opt_int(r) == key_index(views(items@), id@),
        r matches Some(i) ==> i < items@.len() && items@[i as int]@.key() == id@,
{
    let mut i: usize = 0;
    while i < items.len()
        invariant
            i <= items@.len(),
            key_index(views(items@), id@) == key_from(views(items@), id@, i as int),
        decreases items@.len() - i,
    {
        if *items[i].id() == *id {
            return Some(i);
        }
        i = i + 1;
    }
    None
}

// ---------------------------------------------------------------------------
// Graphs
// ---------------------------------------------------------------------------

/// A graph node.
#[derive(Debug, Clone, PartialEq, Eq)]
pub struct Node {
    /// Its id.
    pub id: String,
    /// The text it shows.
    pub label: String,
    /// Its shape.
    pub kind: NodeKind,
}

/// The model of [`Node`].
#[verifier::ext_equal]
pub struct NodeView {
    pub id: Seq<char>,
    pub label: Seq<char>,
    pub kind: NodeKind,
}

impl View for Node {
    type V = NodeView;

    open spec fn view(&self) -> NodeView {
        NodeView {
            id: self.id@,
            label: self.label@,
            kind: self.kind,
        }
    }
}

impl Named for NodeView {
    open spec fn key(self) -> Seq<char> {
        self.id
    }
}

impl Identified for Node {
    fn id(&self) -> (r: &String) {
        &self.id
    }
}

/// A graph edge.
#[derive(Debug, Clone, PartialEq, Eq)]
pub struct Edge {
    /// The id of the source node.
    pub from: String,
    /// The id of the target node.
    pub to: String,
    /// The text on the edge.
    pub label: Option<String>,
    /// The head at the target.
    pub arrow: ArrowType,
    /// The head at the source.
    pub from_arrow: ArrowType,
    /// How the line is drawn.
    pub line: LineStyle,
    /// How heavy the line is.
    pub weight: LineWeight,
    /// The side of the source node.
    pub from_port: Option<Port>,
    /// The side of the target node.
    pub to_port: Option<Port>,
}

/// The model of [`Edge`].
#[verifier::ext_equal]
pub struct EdgeView {
    pub from: Seq<char>,
    pub to: Seq<char>,
    pub label: Option<Seq<char>>,
    pub arrow: ArrowType,
    pub from_arrow: ArrowType,
    pub line: LineStyle,
    pub weight: LineWeight,
    pub from_port: Option<Port>,
    pub to_port: Option<Port>,
}

impl View for Edge {
    type V = EdgeView;

    open spec fn view(&self) -> EdgeView {
        EdgeView {
            from: self.from@,
            to: self.to@,
            label: opt_view(self.label),
            arrow: self.arrow,
            from_arrow: self.from_arrow,
            line: self.line,
            weight: self.weight,
            from_port: self.from_port,
            to_port: self.to_port,
        }
    }
}

/// A group of nodes, with the groups inside it.
#[derive(Debug, PartialEq, Eq)]
pub struct Container {
    /// Its id.
    pub id: String,
    /// Its title.
    pub label: Option<String>,
    /// The ids of the nodes directly in it.
    pub members: Vec<String>,
    /// The groups directly in it.
    pub children: Vec<Container>,
}

/// The model of [`Container`].
#[verifier::ext_equal]
pub struct ContainerView {
    pub id: Seq<char>,
    pub label: Option<Seq<char>>,
    pub members: Seq<Seq<char>>,
    pub children: Seq<ContainerView>,
}

/// The model of a group.
pub open spec fn container_view(c: Container) -> ContainerView
    decreases c,
{
    ContainerView {
        id: c.id@,
        label: opt_view(c.label),
        members: views(c.members@),
        children: Seq::new(
            c.children@.len(),
            |i: int|
                if 0 <= i < c.children@.len() {
                    container_view(c.children@[i])
                } else {
                    arbitrary()
                },
        ),
    }
}

impl View for Container {
    type V = ContainerView;

    open spec fn view(&self) -> ContainerView {
        container_view(*self)
    }
}

/// The children of a group's model are the models of its children.
pub broadcast proof fn lemma_container_view(c: Container)
    ensures
        (#[trigger] c@).children == views(c.children@),
{
    assert(c@.children =~= views(c.children@));
}

/// A graph: nodes, edges and groups.
#[derive(Debug, PartialEq, Eq)]
pub struct GraphDiagram {
    /// The direction in which it grows.
    pub direction: Direction,
    /// The nodes.
    pub nodes: Vec<Node>,
    /// The edges.
    pub edges: Vec<Edge>,
    /// The outermost groups.
    pub containers: Vec<Container>,
}

/// The model of [`GraphDiagram`].
#[verifier::ext_equal]
pub struct GraphDiagramView {
    pub direction: Direction,
    pub nodes: Seq<NodeView>,
    pub edges: Seq<EdgeView>,
    pub containers: Seq<ContainerView>,
}

impl View for GraphDiagram {
    type V = GraphDiagramView;

    open spec fn view(&self) -> GraphDiagramView {
        GraphDiagramView {
            direction: self.direction,
            nodes: views(self.nodes@),
            edges: views(self.edges@),
            containers: views(self.containers@),
        }
    }
}

// ---------------------------------------------------------------------------
// Sequences
// ---------------------------------------------------------------------------

/// A participant of a sequence.
#[derive(Debug, Clone, PartialEq, Eq)]
pub struct Participant {
    /// Its id.
    pub id: String,
    /// The text it shows.
    pub label: String,
    /// What it stands for.
    pub kind: ParticipantKind,
}

/// The model of [`Participant`].
#[verifier::ext_equal]
pub struct ParticipantView {
    pub id: Seq<char>,
    pub label: Seq<char>,
    pub kind: ParticipantKind,
}

impl View for Participant {
    type V = ParticipantView;

    open spec fn view(&self) -> ParticipantView {
        ParticipantView {
            id: self.id@,
            label: self.label@,
            kind: self.kind,
        }
    }
}

impl Named for ParticipantView {
    open spec fn key(self) -> Seq<char> {
        self.id
    }
}

impl Identified for Participant {
    fn id(&self) -> (r: &String) {
        &self.id
    }
}

/// A message from one participant to another.
#[derive(Debug, Clone, PartialEq, Eq)]
pub struct Message {
    /// The id of the sender.
    pub from: String,
    /// The id of the receiver.
    pub to: String,
    /// The text on the message.
    pub label: Option<String>,
    /// How the line is drawn.
    pub line: LineStyle,
    /// The head at the receiver.
    pub arrow: ArrowType,
}

/// The model of [`Message`].
#[verifier::ext_equal]
pub struct MessageView {
    pub from: Seq<char>,
    pub to: Seq<char>,
    pub label: Option<Seq<char>>,
    pub line: LineStyle,
    pub arrow: ArrowType,
}

impl View for Message {
    type V = MessageView;

    open spec fn view(&self) -> MessageView {
        MessageView {
            from: self.from@,
            to: self.to@,
            label: opt_view(self.label),
            line: self.line,
            arrow: self.arrow,
        }
    }
}

/// One step of a sequence.
#[derive(Debug, Clone, PartialEq, Eq)]
pub enum SequenceItem {
    /// A message.
    Message(Message),
}

/// The model of [`SequenceItem`].
pub enum SequenceItemView {
    Message(MessageView),
}

impl View for SequenceItem {
    type V = SequenceItemView;

    open spec fn view(&self) -> SequenceItemView {
        match *self {
            SequenceItem::Message(m) => SequenceItemView::Message(m@),
        }
    }
}

/// A sequence: participants and the steps between them.
#[derive(Debug, Clone, PartialEq, Eq)]
pub struct SequenceDiagram {
    /// The participants.
    pub participants: Vec<Participant>,
    /// The steps.
    pub items: Vec<SequenceItem>,
}

/// The model of [`SequenceDiagram`].
#[verifier::ext_equal]
pub struct SequenceDiagramView {
    pub participants: Seq<ParticipantView>,
    pub items: Seq<SequenceItemView>,
}

impl View for SequenceDiagram {
    type V = SequenceDiagramView;

    open spec fn view(&self) -> SequenceDiagramView {
        SequenceDiagramView {
            participants: views(self.participants@),
            items: views(self.items@),
        }
    }
}

// ---------------------------------------------------------------------------
// State machines
// ---------------------------------------------------------------------------

/// A named state.
#[derive(Debug, Clone, PartialEq, Eq)]
pub struct State {
    /// Its id.
    pub id: String,
    /// The text it shows.
    pub label: String,
}

/// The model of [`State`].
#[verifier::ext_equal]
pub struct StateView {
    pub id: Seq<char>,
    pub label: Seq<char>,
}

impl View for State {
    type V = StateView;

    open spec fn view(&self) -> StateView {
        StateView {
            id: self.id@,
            label: self.label@,
        }
    }
}

impl Named for StateView {
    open spec fn key(self) -> Seq<char> {
        self.id
    }
}

impl Identified for State {
    fn id(&self) -> (r: &String) {
        &self.id
    }
}

/// Where a transition begins or ends.
#[derive(Debug, Clone, PartialEq, Eq)]
pub enum Endpoint {
    /// The initial pseudostate.
    Initial,
    /// The final pseudostate.
    Final,
    /// The state with this id.
    State(String),
}

/// The model of [`Endpoint`].
pub enum EndpointView {
    Initial,
    Final,
    State(Seq<char>),
}

impl View for Endpoint {
    type V = EndpointView;

    open spec fn view(&self) -> EndpointView {
        match *self {
            Endpoint::Initial => EndpointView::Initial,
            Endpoint::Final => EndpointView::Final,
            Endpoint::State(id) => EndpointView::State(id@),
        }
    }
}

/// A transition.
#[derive(Debug, Clone, PartialEq, Eq)]
pub struct Transition {
    /// Where it begins.
    pub from: Endpoint,
    /// Where it ends.
    pub to: Endpoint,
    /// The text on it.
    pub label: Option<String>,
}

/// The model of [`Transition`].
#[verifier::ext_equal]
pub struct TransitionView {
    pub from: EndpointView,
    pub to: EndpointView,
    pub label: Option<Seq<char>>,
}

impl View for Transition {
    type V = TransitionView;

    open spec fn view(&self) -> TransitionView {
        TransitionView { from: self.from@, to: self.to@, label: opt_view(self.label) }
    }
}

/// A state machine.
#[derive(Debug, Clone, PartialEq, Eq)]
pub struct StateDiagram {
    /// The named states.
    pub states: Vec<State>,
    /// The transitions.
    pub transitions: Vec<Transition>,
}

/// The model of [`StateDiagram`].
#[verifier::ext_equal]
pub struct StateDiagramView {
    pub states: Seq<StateView>,
    pub transitions: Seq<TransitionView>,
}

impl View for StateDiagram {
    type V = StateDiagramView;

    open spec fn view(&self) -> StateDiagramView {
        StateDiagramView {
            states: views(self.states@),
            transitions: views(self.transitions@),
        }
    }
}

// ---------------------------------------------------------------------------
// Classes
// ---------------------------------------------------------------------------

/// A class.
#[derive(Debug, Clone, PartialEq, Eq)]
pub struct ClassNode {
    /// Its id.
    pub id: String,
    /// The name it shows.
    pub name: String,
    /// Its stereotype.
    pub stereotype: Option<String>,
    /// Its attributes, as they are shown.
    pub attributes: Vec<String>,
    /// Its methods, as they are shown.
    pub methods: Vec<String>,
}

/// The model of [`ClassNode`].
#[verifier::ext_equal]
pub struct ClassNodeView {
    pub id: Seq<char>,
    pub name: Seq<char>,
    pub stereotype: Option<Seq<char>>,
    pub attributes: Seq<Seq<char>>,
    pub methods: Seq<Seq<char>>,
}

impl View for ClassNode {
    type V = ClassNodeView;

    open spec fn view(&self) -> ClassNodeView {
        ClassNodeView {
            id: self.id@,
            name: self.name@,
            stereotype: opt_view(self.stereotype),
            attributes: views(self.attributes@),
            methods: views(self.methods@),
        }
    }
}

impl Named for ClassNodeView {
    open spec fn key(self) -> Seq<char> {
        self.id
    }
}

impl Identified for ClassNode {
    fn id(&self) -> (r: &String) {
        &self.id
    }
}

/// A relation between two classes.
#[derive(Debug, Clone, PartialEq, Eq)]
pub struct ClassRelation {
    /// The id of the class at the left end.
    pub from: String,
    /// The id of the class at the right end.
    pub to: String,
    /// The marker at the left end.
    pub from_marker: EndMarker,
    /// The marker at the right end.
    pub to_marker: EndMarker,
    /// How the line is drawn.
    pub line: LineStyle,
    /// The text on the relation.
    pub label: Option<String>,
    /// The multiplicity at the left end.
    pub from_mult: Option<String>,
    /// The multiplicity at the right end.
    pub to_mult: Option<String>,
}

/// The model of [`ClassRelation`].
#[verifier::ext_equal]
pub struct ClassRelationView {
    pub from: Seq<char>,
    pub to: Seq<char>,
    pub from_marker: EndMarker,
    pub to_marker: EndMarker,
    pub line: LineStyle,
    pub label: Option<Seq<char>>,
    pub from_mult: Option<Seq<char>>,
    pub to_mult: Option<Seq<char>>,
}

impl View for ClassRelation {
    type V = ClassRelationView;

    open spec fn view(&self) -> ClassRelationView {
        ClassRelationView {
            from: self.from@,
            to: self.to@,
            from_marker: self.from_marker,
            to_marker: self.to_marker,
            line: self.line,
            label: opt_view(self.label),
            from_mult: opt_view(self.from_mult),
            to_mult: opt_view(self.to_mult),
        }
    }
}

/// Classes and their relations.
#[derive(Debug, Clone, PartialEq, Eq)]
pub struct ClassDiagram {
    /// The direction in which it grows.
    pub direction: Direction,
    /// The classes.
    pub classes: Vec<ClassNode>,
    /// The relations.
    pub relations: Vec<ClassRelation>,
}

/// The model of [`ClassDiagram`].
#[verifier::ext_equal]
pub struct ClassDiagramView {
    pub direction: Direction,
    pub classes: Seq<ClassNodeView>,
    pub relations: Seq<ClassRelationView>,
}

impl View for ClassDiagram {
    type V = ClassDiagramView;

    open spec fn view(&self) -> ClassDiagramView {
        ClassDiagramView {
            direction: self.direction,
            classes: views(self.classes@),
            relations: views(self.relations@),
        }
    }
}

// ---------------------------------------------------------------------------
// Entities
// ---------------------------------------------------------------------------

/// An attribute of an entity.
#[derive(Debug, Clone, PartialEq, Eq)]
pub struct ErAttribute {
    /// Its type.
    pub type_text: String,
    /// Its name.
    pub name: String,
    /// The keys it belongs to.
    pub keys: Vec<String>,
    /// A comment.
    pub comment: Option<String>,
}

/// The model of [`ErAttribute`].
#[verifier::ext_equal]
pub struct ErAttributeView {
    pub type_text: Seq<char>,
    pub name: Seq<char>,
    pub keys: Seq<Seq<char>>,
    pub comment: Option<Seq<char>>,
}

impl View for ErAttribute {
    type V = ErAttributeView;

    open spec fn view(&self) -> ErAttributeView {
        ErAttributeView {
            type_text: self.type_text@,
            name: self.name@,
            keys: views(self.keys@),
            comment: opt_view(self.comment),
        }
    }
}

/// An entity.
#[derive(Debug, Clone, PartialEq, Eq)]
pub struct ErEntity {
    /// Its id.
    pub id: String,
    /// The name it shows.
    pub name: String,
    /// Its attributes.
    pub attributes: Vec<ErAttribute>,
}

/// The model of [`ErEntity`].
#[verifier::ext_equal]
pub struct ErEntityView {
    pub id: Seq<char>,
    pub name: Seq<char>,
    pub attributes: Seq<ErAttributeView>,
}

impl View for ErEntity {
    type V = ErEntityView;

    open spec fn view(&self) -> ErEntityView {
        ErEntityView {
            id: self.id@,
            name: self.name@,
            attributes: views(self.attributes@),
        }
    }
}

impl Named for ErEntityView {
    open spec fn key(self) -> Seq<char> {
        self.id
    }
}

impl Identified for ErEntity {
    fn id(&self) -> (r: &String) {
        &self.id
    }
}

/// A relation between two entities.
#[derive(Debug, Clone, PartialEq, Eq)]
pub struct ErRelation {
    /// The id of the entity at the left end.
    pub from: String,
    /// The id of the entity at the right end.
    pub to: String,
    /// The marker at the left end.
    pub from_marker: EndMarker,
    /// The marker at the right end.
    pub to_marker: EndMarker,
    /// The text on the relation.
    pub label: Option<String>,
    /// How the line is drawn.
    pub line: LineStyle,
}

/// The model of [`ErRelation`].
#[verifier::ext_equal]
pub struct ErRelationView {
    pub from: Seq<char>,
    pub to: Seq<char>,
    pub from_marker: EndMarker,
    pub to_marker: EndMarker,
    pub label: Option<Seq<char>>,
    pub line: LineStyle,
}

impl View for ErRelation {
    type V = ErRelationView;

    open spec fn view(&self) -> ErRelationView {
        ErRelationView {
            from: self.from@,
            to: self.to@,
            from_marker: self.from_marker,
            to_marker: self.to_marker,
            label: opt_view(self.label),
            line: self.line,
        }
    }
}

/// Entities and their relations.
#[derive(Debug, Clone, PartialEq, Eq)]
pub struct ErDiagram {
    /// The entities.
    pub entities: Vec<ErEntity>,
    /// The relations.
    pub relations: Vec<ErRelation>,
}

/// The model of [`ErDiagram`].
#[verifier::ext_equal]
pub struct ErDiagramView {
    pub entities: Seq<ErEntityView>,
    pub relations: Seq<ErRelationView>,
}

impl View for ErDiagram {
    type V = ErDiagramView;

    open spec fn view(&self) -> ErDiagramView {
        ErDiagramView {
            entities: views(self.entities@),
            relations: views(self.relations@),
        }
    }
}

// ---------------------------------------------------------------------------
// Documents
// ---------------------------------------------------------------------------

/// A diagram of any kind.
#[derive(Debug, PartialEq, Eq)]
pub enum Diagram {
    /// A graph.
    Graph(GraphDiagram),
    /// A sequence.
    Sequence(SequenceDiagram),
    /// A state machine.
    State(StateDiagram),
    /// A class diagram.
    Class(ClassDiagram),
    /// An entity-relationship diagram.
    Er(ErDiagram),
}

/// The model of [`Diagram`].
pub enum DiagramView {
    Graph(GraphDiagramView),
    Sequence(SequenceDiagramView),
    State(StateDiagramView),
    Class(ClassDiagramView),
    Er(ErDiagramView),
}

impl View for Diagram {
    type V = DiagramView;

    open spec fn view(&self) -> DiagramView {
        match *self {
            Diagram::Graph(d) => DiagramView::Graph(d@),
            Diagram::Sequence(d) => DiagramView::Sequence(d@),
            Diagram::State(d) => DiagramView::State(d@),
            Diagram::Class(d) => DiagramView::Class(d@),
            Diagram::Er(d) => DiagramView::Er(d@),
        }
    }
}

/// What is known of a document besides its diagram.
#[derive(Debug, Clone, PartialEq, Eq)]
pub struct Metadata {
    /// The document's name.
    pub name: Option<String>,
}

/// A diagram with what is known of its document.
#[derive(Debug, PartialEq, Eq)]
pub struct IrDocument {
    /// What is known of the document.
    pub metadata: Metadata,
    /// Named additions that no exporter reads.
    pub extensions: Vec<(String, String)>,
    /// The diagram.
    pub diagram: Diagram,
}

impl IrDocument {
    /// A document without a name and without additions.
    pub fn new(diagram: Diagram) -> (r: Self)
        ensures
            r.metadata.name is None,
            r.extensions@.len() == 0,
            r.diagram == diagram,
    {
        IrDocument { metadata: Metadata { name: None }, extensions: Vec::new(), diagram }
    }

    /// The diagram.
    pub fn into_diagram(self) -> (r: Diagram)
        ensures
            r == self.diagram,
    {
        self.diagram
    }
}

} // verus!
