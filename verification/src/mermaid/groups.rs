//! Subgraphs, declarations of states and errors: what they are read as.
use crate::diag::{diagnostic, DiagnosticView};
use crate::ir::{has_key, lemma_key_from, ContainerView, DiagramView, StateView, TransitionView};
use crate::lines::LineView;
use crate::mermaid::chain::MentionView;
use crate::mermaid::class::{classes_error, member_line, ClassesView};
use crate::mermaid::er::{entities_error, er_statement, EntitiesView};
use crate::mermaid::flowchart::{close_group, ensure_node, open_group, subgraph_header, FlowView};
use crate::mermaid::laws::{
    is_id, lemma_blank_nothing, lemma_reads_id, lemma_trim_same, lemma_trim_space,
    lemma_trim_word, lemma_trimmed,
};
use crate::mermaid::readings::is_label;
use crate::mermaid::sequence::{seq_error, seq_line, SeqView};
use crate::mermaid::state::{
    declared_states, state_decl, state_line, states_error, states_verdict, with_transitions,
    StatesView,
};
use crate::text::{char_index, lemma_char_from, trim, trim_end};
use vstd::prelude::*;

verus! {

// ---------------------------------------------------------------------------
// Subgraphs
// ---------------------------------------------------------------------------

/// `id [Title]` names a subgraph with that id and the title in full, and a text without
/// brackets names one with that text as its id and without a title.
pub proof fn law_subgraph_header_is_read(id: Seq<char>, title: Option<Seq<char>>)
    requires
        is_label(id),
        forall|i: int| 0 <= i < id.len() ==> id[i] != '[',
        title matches Some(t) ==> is_label(t),
    ensures
        subgraph_header(
            match title {
                Some(t) => id + (seq![' ', '['] + t + seq![']']),
                None => id,
            },
        ) == (id, title),
{
    let n = id.len() as int;
    match title {
        Some(t) => {
            let rest = id + (seq![' ', '['] + t + seq![']']);
            lemma_char_from(rest, '[', 0);
            assert(rest[n] == ' ' && rest[n + 1] == '[');
            assert forall|j: int| 0 <= j < n + 1 implies rest[j] != '[' by {
                if j < n {
                    assert(rest[j] == id[j]);
                }
            }
            assert(char_index(rest, '[') == Some(n + 1));
            assert(rest[rest.len() - 1] == ']');
            assert(rest.take(n + 1) =~= id + seq![' ']);
            lemma_trim_word(id);
            assert(rest.subrange(n + 2, rest.len() - 1) =~= t);
            lemma_trim_same(t);
        },
        None => {
            lemma_char_from(id, '[', 0);
        },
    }
}

/// A node that is first named between the opening of a subgraph and its end is the
/// subgraph's member. The subgraph stands, with its id, its title and its member, behind
/// those that were closed before it: among the children of the subgraph around it, or on
/// its own where there is none. Nothing else changes.
pub proof fn law_subgraph_takes_its_node(
    st: FlowView,
    header: Seq<char>,
    l: LineView,
    m: MentionView,
    end: LineView,
)
    requires
        header.len() > 0,
        !has_key(st.nodes, m.id),
    ensures
        ({
            let after = close_group(ensure_node(open_group(st, header, l), m), end);
            let group = ContainerView {
                id: subgraph_header(header).0,
                label: subgraph_header(header).1,
                members: seq![m.id],
                children: Seq::empty(),
            };
            &&& after.errors == st.errors
            &&& after.edges == st.edges
            &&& after.nodes.len() == st.nodes.len() + 1
            &&& forall|i: int| 0 <= i < st.nodes.len() ==> after.nodes[i] == st.nodes[i]
            &&& after.nodes[st.nodes.len() as int].0 == m.id
            &&& after.stack.len() == st.stack.len()
            &&& st.stack.len() == 0 ==> after.roots == st.roots.push(group)
            &&& st.stack.len() > 0 ==> after.roots == st.roots && after.stack.last().group.children
                == st.stack.last().group.children.push(group) && after.stack.last().group.members
                == st.stack.last().group.members && after.stack.last().group.id
                == st.stack.last().group.id
        }),
{
    let a = open_group(st, header, l);
    let b = ensure_node(a, m);
    assert(Seq::<Seq<char>>::empty().push(m.id) =~= seq![m.id]);
    assert(b.stack.drop_last() =~= st.stack);
}

/// A node that is named already stays where it is: naming it in a subgraph makes it no
/// member.
pub proof fn law_known_node_stays(st: FlowView, m: MentionView)
    requires
        has_key(st.nodes, m.id),
    ensures
        ensure_node(st, m).stack == st.stack,
        ensure_node(st, m).roots == st.roots,
        ensure_node(st, m).nodes.len() == st.nodes.len(),
{
    lemma_key_from(st.nodes, m.id, 0);
}

// ---------------------------------------------------------------------------
// States
// ---------------------------------------------------------------------------

/// `"Label" as id` declares the state `id` with the label between the quotes in full, and
/// `id` alone declares it with its id as its label.
pub proof fn law_written_state_is_read(id: Seq<char>, label: Option<Seq<char>>)
    requires
        is_id(id),
        label matches Some(x) ==> forall|i: int| 0 <= i < x.len() ==> x[i] != '"',
    ensures
        state_decl(
            match label {
                Some(x) => seq!['"'] + (x + (seq!['"', ' ', 'a', 's', ' '] + id)),
                None => id,
            },
        ) == Ok::<(Seq<char>, Seq<char>), Seq<char>>(
            (
                id,
                match label {
                    Some(x) => x,
                    None => id,
                },
            ),
        ),
{
    assert(id + Seq::<char>::empty() =~= id);
    lemma_reads_id(id, Seq::empty());
    lemma_blank_nothing();
    match label {
        Some(x) => {
            reveal_strlit("as ");
            let s = x + (seq!['"', ' ', 'a', 's', ' '] + id);
            let rest = seq!['"'] + s;
            let n = x.len() as int;
            assert(rest[0] == '"');
            assert(rest.skip(1) =~= s);
            lemma_char_from(s, '"', 0);
            assert(s[n] == '"');
            assert forall|j: int| 0 <= j < n implies s[j] != '"' by {
                assert(s[j] == x[j]);
            }
            assert(char_index(s, '"') == Some(n));
            assert(s.take(n) =~= x);
            let tail = "as "@ + id;
            assert(s.skip(n + 1) =~= seq![' '] + tail);
            assert(tail[0] == 'a');
            assert(tail[tail.len() - 1] == id[id.len() - 1]);
            lemma_trim_space(tail);
            lemma_trimmed(tail);
            lemma_trim_same(tail);
            assert(trim(seq![' '] + tail) == trim_end(tail));
            assert(tail.take(3) =~= "as "@);
            assert(tail.subrange(0, 3) =~= "as "@);
            assert(tail.skip(3) =~= id);
            lemma_trim_same(id);
        },
        None => {
            assert(id[0] != '"');
        },
    }
}

proof fn lemma_states_stay(states: Seq<StateView>, ts: Seq<TransitionView>, n: int)
    requires
        0 <= n <= ts.len(),
    ensures
        states.len() <= with_transitions(states, ts, n).len(),
        forall|i: int|
            0 <= i < states.len() ==> #[trigger] with_transitions(states, ts, n)[i] == states[i],
    decreases n,
{
    if n > 0 {
        lemma_states_stay(states, ts, n - 1);
    }
}

/// A state diagram without errors has the declared states first, in their order, each
/// with its id and its label, and all transitions, in their order.
pub proof fn law_declared_states_come_first(st: StatesView)
    ensures
        states_verdict(st) matches Ok(DiagramView::State(d)) ==> {
            &&& d.transitions == st.transitions
            &&& st.decls.len() <= d.states.len()
            &&& forall|i: int|
                0 <= i < st.decls.len() ==> #[trigger] d.states[i] == (StateView {
                    id: st.decls[i].0,
                    label: st.decls[i].1,
                })
        },
        states_verdict(st) is Ok <==> st.errors.len() == 0,
{
    let declared = declared_states(st.decls);
    let n = st.transitions.len() as int;
    lemma_states_stay(declared, st.transitions, n);
    if let Ok(DiagramView::State(d)) = states_verdict(st) {
        assert forall|i: int| 0 <= i < st.decls.len() implies #[trigger] d.states[i] == (StateView {
            id: st.decls[i].0,
            label: st.decls[i].1,
        }) by {
            assert(with_transitions(declared, st.transitions, n)[i] == declared[i]);
        }
    }
}

// ---------------------------------------------------------------------------
// Errors
// ---------------------------------------------------------------------------

/// Whether at most one error is new, and that one is about the line `l` as a whole.
pub open spec fn told_of_line(
    before: Seq<DiagnosticView>,
    after: Seq<DiagnosticView>,
    l: LineView,
) -> bool {
    after == before || (after.len() == before.len() + 1 && after.drop_last() == before
        && after.last().start == l.start && after.last().end == l.end)
}

proof fn lemma_told(before: Seq<DiagnosticView>, message: Seq<char>, l: LineView)
    ensures
        told_of_line(before, before.push(diagnostic(message, l.start, l.end)), l),
{
    assert(before.push(diagnostic(message, l.start, l.end)).drop_last() =~= before);
}

/// A line of a sequence gives at most one error. The error is about the whole line, and
/// the line then adds nothing else.
pub proof fn law_sequence_errors_span_their_line(st: SeqView, l: LineView)
    ensures
        told_of_line(st.errors, seq_line(st, l).errors, l),
        seq_line(st, l).errors != st.errors ==> seq_line(st, l).items == st.items && seq_line(
            st,
            l,
        ).participants == st.participants,
{
    assert forall|m: Seq<char>| told_of_line(st.errors, (#[trigger] seq_error(st, m, l)).errors, l) by {
        lemma_told(st.errors, m, l);
    }
}

/// A line of a state diagram gives at most one error. The error is about the whole line,
/// and the line then adds nothing else.
pub proof fn law_state_errors_span_their_line(st: StatesView, l: LineView)
    ensures
        told_of_line(st.errors, state_line(st, l).errors, l),
        state_line(st, l).errors != st.errors ==> state_line(st, l).decls == st.decls && state_line(
            st,
            l,
        ).transitions == st.transitions,
{
    assert forall|m: Seq<char>|
        told_of_line(st.errors, (#[trigger] states_error(st, m, l)).errors, l) by {
        lemma_told(st.errors, m, l);
    }
}

/// A statement of an entity-relationship diagram gives at most one error. The error is
/// about the whole line, and the line then adds nothing else.
pub proof fn law_er_errors_span_their_line(st: EntitiesView, t: Seq<char>, l: LineView)
    ensures
        told_of_line(st.errors, er_statement(st, t, l).errors, l),
        er_statement(st, t, l).errors != st.errors ==> er_statement(st, t, l).entities
            == st.entities && er_statement(st, t, l).relations == st.relations,
{
    assert forall|m: Seq<char>|
        told_of_line(st.errors, (#[trigger] entities_error(st, m, l)).errors, l) by {
        lemma_told(st.errors, m, l);
    }
}

/// A member of a class gives at most one error. The error is about the whole line, and
/// the line then adds nothing else.
pub proof fn law_member_errors_span_their_line(st: ClassesView, i: int, t: Seq<char>, l: LineView)
    ensures
        told_of_line(st.errors, member_line(st, i, t, l).errors, l),
        member_line(st, i, t, l).errors != st.errors ==> member_line(st, i, t, l).classes
            == st.classes && member_line(st, i, t, l).relations == st.relations,
{
    assert forall|m: Seq<char>|
        told_of_line(st.errors, (#[trigger] classes_error(st, m, l)).errors, l) by {
        lemma_told(st.errors, m, l);
    }
}

} // verus!
