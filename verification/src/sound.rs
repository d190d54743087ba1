//! What holds of every diagram that a frontend accepts.
use crate::diag::{DiagnosticView, ParsedView};
use crate::ir::{
    distinct_keys, has_key, key_index, lemma_key_from, ClassDiagramView, ContainerView,
    DiagramView, EndpointView, ErDiagramView, GraphDiagramView, LineStyle, Named,
    SequenceDiagramView, SequenceItemView, StateDiagramView, StateView,
};
use crate::lines::{line_wf, LineView};
use vstd::multiset::Multiset;
use vstd::prelude::*;

verus! {

// ---------------------------------------------------------------------------
// Lists by id
// ---------------------------------------------------------------------------

/// `t` begins with the ids of `s`.
pub open spec fn grown<M: Named>(s: Seq<M>, t: Seq<M>) -> bool {
    s.len() <= t.len() && forall|i: int| 0 <= i < s.len() ==> (#[trigger] t[i]).key() == s[i].key()
}

/// An id is there if an item has it.
pub proof fn lemma_has_key<M: Named>(s: Seq<M>, i: int)
    requires
        0 <= i < s.len(),
    ensures
        has_key(s, s[i].key()),
{
    lemma_key_from(s, s[i].key(), 0);
}

/// A list that has grown has every id that it had.
pub proof fn lemma_grown<M: Named>(s: Seq<M>, t: Seq<M>)
    requires
        grown(s, t),
    ensures
        forall|id: Seq<char>| #[trigger] has_key(s, id) ==> has_key(t, id),
{
    assert forall|id: Seq<char>| #[trigger] has_key(s, id) implies has_key(t, id) by {
        lemma_key_from(s, id, 0);
        let k = key_index(s, id)->0;
        assert(t[k].key() == id);
        lemma_has_key(t, k);
    }
}

// ---------------------------------------------------------------------------
// Groups
// ---------------------------------------------------------------------------

/// The ids of the nodes in a group and in the groups within it.
pub open spec fn group_members(c: ContainerView) -> Multiset<Seq<char>>
    decreases c, 0int,
{
    c.members.to_multiset().add(all_members(c.children, c.children.len() as int))
}

/// The ids of the nodes in the first `n` groups.
pub open spec fn all_members(cs: Seq<ContainerView>, n: int) -> Multiset<Seq<char>>
    decreases cs, n,
{
    if 0 < n <= cs.len() {
        all_members(cs, n - 1).add(group_members(cs[n - 1]))
    } else {
        Multiset::empty()
    }
}

/// The ids of a group and of the groups within it.
pub open spec fn group_ids(c: ContainerView) -> Multiset<Seq<char>>
    decreases c, 0int,
{
    Multiset::singleton(c.id).add(all_ids(c.children, c.children.len() as int))
}

/// The ids of the first `n` groups and of the groups within them.
pub open spec fn all_ids(cs: Seq<ContainerView>, n: int) -> Multiset<Seq<char>>
    decreases cs, n,
{
    if 0 < n <= cs.len() {
        all_ids(cs, n - 1).add(group_ids(cs[n - 1]))
    } else {
        Multiset::empty()
    }
}

/// Whether a group, and every group within it, has a node or a group in it.
pub open spec fn filled(c: ContainerView) -> bool
    decreases c, 0int,
{
    &&& c.members.len() > 0 || c.children.len() > 0
    &&& all_filled(c.children, c.children.len() as int)
}

/// Whether each of the first `n` groups, and every group within them, has a node
/// or a group in it.
pub open spec fn all_filled(cs: Seq<ContainerView>, n: int) -> bool
    decreases cs, n,
{
    0 < n <= cs.len() ==> all_filled(cs, n - 1) && filled(cs[n - 1])
}

/// Lists that begin with the same groups hold the same in them.
pub proof fn lemma_groups_prefix(cs: Seq<ContainerView>, ds: Seq<ContainerView>, n: int)
    requires
        0 <= n <= cs.len(),
        n <= ds.len(),
        forall|i: int| 0 <= i < n ==> cs[i] == ds[i],
    ensures
        all_members(cs, n) == all_members(ds, n),
        all_ids(cs, n) == all_ids(ds, n),
        all_filled(cs, n) == all_filled(ds, n),
    decreases n,
{
    if n > 0 {
        lemma_groups_prefix(cs, ds, n - 1);
    }
}

/// What one more group adds.
pub proof fn lemma_groups_push(cs: Seq<ContainerView>, c: ContainerView)
    ensures
        all_members(cs.push(c), (cs.len() + 1) as int) == all_members(cs, cs.len() as int).add(
            group_members(c),
        ),
        all_ids(cs.push(c), (cs.len() + 1) as int) == all_ids(cs, cs.len() as int).add(group_ids(c)),
        all_filled(cs.push(c), (cs.len() + 1) as int) == (all_filled(cs, cs.len() as int)
            && filled(c)),
{
    lemma_groups_prefix(cs.push(c), cs, cs.len() as int);
}

// ---------------------------------------------------------------------------
// Diagrams
// ---------------------------------------------------------------------------

/// No two nodes have the same id, both ends of every edge are nodes, no node is
/// in two groups, every member of a group is a node, no group has the id of
/// another group or of a node, and no group is empty, however deep it lies.
pub open spec fn sound_graph(g: GraphDiagramView) -> bool {
    let members = all_members(g.containers, g.containers.len() as int);
    let ids = all_ids(g.containers, g.containers.len() as int);
    &&& distinct_keys(g.nodes)
    &&& forall|i: int|
        0 <= i < g.edges.len() ==> has_key(g.nodes, (#[trigger] g.edges[i]).from) && has_key(
            g.nodes,
            g.edges[i].to,
        )
    &&& forall|id: Seq<char>|
        (#[trigger] members.count(id)) <= 1 && (members.count(id) > 0 ==> has_key(g.nodes, id))
    &&& forall|id: Seq<char>|
        (#[trigger] ids.count(id)) <= 1 && (ids.count(id) > 0 ==> !has_key(g.nodes, id))
    &&& all_filled(g.containers, g.containers.len() as int)
}

/// No two participants have the same id, and both ends of every message are
/// participants.
pub open spec fn sound_sequence(s: SequenceDiagramView) -> bool {
    &&& distinct_keys(s.participants)
    &&& forall|i: int|
        0 <= i < s.items.len() ==> (#[trigger] s.items[i] matches SequenceItemView::Message(m)
            ==> has_key(s.participants, m.from) && has_key(s.participants, m.to))
}

/// Whether an end of a transition is one of the states, or no named state.
pub open spec fn known_end(states: Seq<StateView>, e: EndpointView) -> bool {
    e matches EndpointView::State(id) ==> has_key(states, id)
}

/// No two states have the same id, every transition is between states, none
/// goes out from the final pseudostate, none goes to the initial one, and none
/// goes from the initial pseudostate to the final one.
pub open spec fn sound_states(s: StateDiagramView) -> bool {
    &&& distinct_keys(s.states)
    &&& forall|i: int|
        0 <= i < s.transitions.len() ==> {
            let t = #[trigger] s.transitions[i];
            &&& known_end(s.states, t.from)
            &&& known_end(s.states, t.to)
            &&& t.from !is Final
            &&& t.to !is Initial
            &&& !(t.from is Initial && t.to is Final)
        }
}

/// No two classes have the same id, both ends of every relation are classes, and
/// no relation is dotted.
pub open spec fn sound_classes(c: ClassDiagramView) -> bool {
    &&& distinct_keys(c.classes)
    &&& forall|i: int|
        0 <= i < c.relations.len() ==> has_key(c.classes, (#[trigger] c.relations[i]).from)
            && has_key(c.classes, c.relations[i].to) && c.relations[i].line != LineStyle::Dotted
}

/// No two entities have the same id, both ends of every relation are entities,
/// and no relation is dotted.
pub open spec fn sound_entities(e: ErDiagramView) -> bool {
    &&& distinct_keys(e.entities)
    &&& forall|i: int|
        0 <= i < e.relations.len() ==> has_key(e.entities, (#[trigger] e.relations[i]).from)
            && has_key(e.entities, e.relations[i].to) && e.relations[i].line != LineStyle::Dotted
}

/// No two things have the same id, and what connects things connects things that
/// are there.
pub open spec fn sound(d: DiagramView) -> bool {
    match d {
        DiagramView::Graph(g) => sound_graph(g),
        DiagramView::Sequence(s) => sound_sequence(s),
        DiagramView::State(s) => sound_states(s),
        DiagramView::Class(c) => sound_classes(c),
        DiagramView::Er(e) => sound_entities(e),
    }
}

/// No edge of a graph and no relation goes from a thing to itself. Messages and
/// transitions may.
pub open spec fn loop_free(d: DiagramView) -> bool {
    match d {
        DiagramView::Graph(g) => forall|i: int|
            0 <= i < g.edges.len() ==> (#[trigger] g.edges[i]).from != g.edges[i].to,
        DiagramView::Class(c) => forall|i: int|
            0 <= i < c.relations.len() ==> (#[trigger] c.relations[i]).from != c.relations[i].to,
        DiagramView::Er(e) => forall|i: int|
            0 <= i < e.relations.len() ==> (#[trigger] e.relations[i]).from != e.relations[i].to,
        _ => true,
    }
}

// ---------------------------------------------------------------------------
// Diagnostics
// ---------------------------------------------------------------------------

/// The diagnostics are about bytes of a source of `len` bytes.
pub open spec fn within(errors: Seq<DiagnosticView>, len: int) -> bool {
    forall|i: int|
        0 <= i < errors.len() ==> 0 <= (#[trigger] errors[i]).start <= errors[i].end <= len
}

/// The lines are lines of a source of `len` bytes.
pub open spec fn lines_within(lines: Seq<LineView>, len: int) -> bool {
    forall|i: int|
        0 <= i < lines.len() ==> line_wf(#[trigger] lines[i]) && lines[i].end <= len
}

/// What a parse that gives `p` owes: a sound diagram, or at least one diagnostic,
/// each of them about bytes of a source of `len` bytes.
pub open spec fn owed(p: ParsedView, len: int) -> bool {
    match p {
        Ok(d) => sound(d),
        Err(e) => e.len() > 0 && within(e, len),
    }
}

} // verus!
