//! State diagrams.
use crate::drawio::{
    box_id, connector, connector_id, escape_label, footer, header, label_value, mxfile_footer,
    mxfile_header, push_connector, push_vertex, text_view, vertex, xml_escape, RectText,
    RectTextView, RenderError, RenderErrorView, RouteText, RouteTextView, TextView,
};
use crate::escape::xml_text;
use crate::excalidraw::state::endpoint_id_view;
use crate::ir::{key_index, position, Endpoint, EndpointView, State};
use crate::layout::{
    end_there, states_connected, StateBoxView, StateLayout, StateLayoutView, TransitionLayout,
    TransitionLayoutView,
};
use crate::text::{concat3, numbered, same_string};
use vstd::prelude::*;

verus! {

/// The first `n` states after the text `out`.
pub open spec fn states(out: Seq<char>, ss: Seq<StateBoxView<RectTextView>>, n: int) -> Seq<char>
    decreases n,
{
    if n <= 0 {
        out
    } else {
        vertex(
            states(out, ss, n - 1),
            box_id(n - 1),
            xml_text(ss[n - 1].label),
            "rounded=1;whiteSpace=wrap;html=1;"@,
            "1"@,
            ss[n - 1].rect,
        )
    }
}

/// The pseudostates after the text `out`: a dot for the initial one, a ring with
/// a dot inside it for the final one.
pub open spec fn pseudostates(
    out: Seq<char>,
    s: StateLayoutView<RectTextView, RouteTextView>,
) -> Seq<char> {
    let dot = "ellipse;fillColor=#000000;strokeColor=#000000;"@;
    let started = match s.initial {
        Some(r) => vertex(out, "initial"@, ""@, dot, "1"@, r),
        None => out,
    };
    match s.final_state {
        Some(f) => vertex(
            vertex(
                started,
                "final"@,
                ""@,
                "ellipse;fillColor=none;strokeColor=#000000;"@,
                "1"@,
                f.outer,
            ),
            "final_inner"@,
            ""@,
            dot,
            "final"@,
            f.inner,
        ),
        None => started,
    }
}

/// The id of the cell at one end of a transition, or what is not there.
pub open spec fn endpoint_id(
    s: StateLayoutView<RectTextView, RouteTextView>,
    e: EndpointView,
) -> Result<Seq<char>, Seq<char>> {
    match e {
        EndpointView::State(id) => match key_index(s.states, id) {
            Some(i) => Ok(box_id(i)),
            None => Err("state \""@ + id + "\" not found in layout"@),
        },
        EndpointView::Initial => if s.initial is Some {
            Ok("initial"@)
        } else {
            Err("Initial pseudostate referenced but not present in layout"@)
        },
        EndpointView::Final => if s.final_state is Some {
            Ok("final"@)
        } else {
            Err("Final pseudostate referenced but not present in layout"@)
        },
    }
}

/// Whether a transition leads from a state to itself.
pub open spec fn self_loop(t: TransitionLayoutView<RouteTextView>) -> bool {
    t.from is State && t.from == t.to
}

/// The style of a transition. One that leads from a state to itself leaves it on
/// the right and comes back at its upper right corner.
pub open spec fn transition_style(t: TransitionLayoutView<RouteTextView>) -> Seq<char> {
    if self_loop(t) {
        "edgeStyle=orthogonalEdgeStyle;exitX=1;exitY=0.5;exitDx=0;exitDy=0;entryX=1;entryY=0;entryDx=0;entryDy=0;"@
    } else {
        "edgeStyle=orthogonalEdgeStyle;"@
    }
}

/// The transitions from `i` on after the text `out`, and the end of the
/// document.
pub open spec fn transitions(
    out: Seq<char>,
    s: StateLayoutView<RectTextView, RouteTextView>,
    i: int,
) -> TextView
    decreases s.transitions.len() - i,
{
    if i >= s.transitions.len() {
        Ok(out + footer())
    } else {
        let t = s.transitions[i];
        match endpoint_id(s, t.from) {
            Ok(source) => match endpoint_id(s, t.to) {
                Ok(target) => transitions(
                    connector(
                        out,
                        connector_id(i),
                        label_value(t.label),
                        transition_style(t),
                        (source, target),
                        t.path.points,
                    ),
                    s,
                    i + 1,
                ),
                Err(description) => Err(RenderErrorView::UnknownEndpoint { description }),
            },
            Err(description) => Err(RenderErrorView::UnknownEndpoint { description }),
        }
    }
}

/// The document of a state diagram: its states, the pseudostates and its
/// transitions.
pub open spec fn state_document(s: StateLayoutView<RectTextView, RouteTextView>) -> TextView {
    transitions(pseudostates(states(header(), s.states, s.states.len() as int), s), s, 0)
}

fn state_cell_id(s: &StateLayout<RectText, RouteText>, e: &Endpoint) -> (r: Result<String, String>)
    ensures
        endpoint_id_view(r) == endpoint_id(s@, e@),
{
    match e {
        Endpoint::State(id) => match position(s.states.as_slice(), id) {
            Some(i) => Ok(numbered("n", i)),
            None => Err(concat3("state \"", id.as_str(), "\" not found in layout")),
        },
        Endpoint::Initial => if s.initial.is_some() {
            Ok(String::from_str("initial"))
        } else {
            Err(String::from_str("Initial pseudostate referenced but not present in layout"))
        },
        Endpoint::Final => if s.final_state.is_some() {
            Ok(String::from_str("final"))
        } else {
            Err(String::from_str("Final pseudostate referenced but not present in layout"))
        },
    }
}

fn push_pseudostates(out: &mut String, s: &StateLayout<RectText, RouteText>)
    ensures
        final(out)@ == pseudostates(old(out)@, s@),
{
    let dot: &'static str = "ellipse;fillColor=#000000;strokeColor=#000000;";
    match &s.initial {
        Some(r) => {
            push_vertex(out, "initial", "", dot, "1", r);
        },
        None => {},
    }
    match &s.final_state {
        Some(f) => {
            push_vertex(
                out,
                "final",
                "",
                "ellipse;fillColor=none;strokeColor=#000000;",
                "1",
                &f.outer,
            );
            push_vertex(out, "final_inner", "", dot, "final", &f.inner);
        },
        None => {},
    }
}

fn is_self_loop(t: &TransitionLayout<RouteText>) -> (r: bool)
    ensures
        r == self_loop(t@),
{
    match (&t.from, &t.to) {
        (Endpoint::State(a), Endpoint::State(b)) => same_string(a, b),
        _ => false,
    }
}

/// The document of a state diagram.
pub fn render_state(s: &StateLayout<RectText, RouteText>) -> (r: Result<String, RenderError>)
    ensures
        text_view(r) == state_document(s@),
{
    let ghost v = s@;
    let mut out = mxfile_header();
    let mut k: usize = 0;
    while k < s.states.len()
        invariant
            k <= s.states@.len(),
            v == s@,
            out@ == states(header(), v.states, k as int),
        decreases s.states@.len() - k,
    {
        let b = &s.states[k];
        assert(v.states[k as int] == b@);
        let id = numbered("n", k);
        let value = xml_escape(b.label.as_str());
        push_vertex(
            &mut out,
            id.as_str(),
            value.as_str(),
            "rounded=1;whiteSpace=wrap;html=1;",
            "1",
            &b.rect,
        );
        k = k + 1;
    }
    push_pseudostates(&mut out, s);
    let mut i: usize = 0;
    while i < s.transitions.len()
        invariant
            i <= s.transitions@.len(),
            v == s@,
            state_document(v) == transitions(out@, v, i as int),
        decreases s.transitions@.len() - i,
    {
        let t = &s.transitions[i];
        assert(v.transitions[i as int] == t@);
        let source = match state_cell_id(s, &t.from) {
            Ok(id) => id,
            Err(description) => {
                return Err(RenderError::UnknownEndpoint { description });
            },
        };
        let target = match state_cell_id(s, &t.to) {
            Ok(id) => id,
            Err(description) => {
                return Err(RenderError::UnknownEndpoint { description });
            },
        };
        let id = numbered("e", i);
        let value = escape_label(&t.label);
        let style: &'static str = if is_self_loop(t) {
            "edgeStyle=orthogonalEdgeStyle;exitX=1;exitY=0.5;exitDx=0;exitDy=0;entryX=1;entryY=0;entryDx=0;entryDy=0;"
        } else {
            "edgeStyle=orthogonalEdgeStyle;"
        };
        push_connector(
            &mut out,
            id.as_str(),
            value.as_str(),
            style,
            (source.as_str(), target.as_str()),
            &t.path.points,
        );
        i = i + 1;
    }
    out.append(mxfile_footer());
    Ok(out)
}

proof fn lemma_transitions(
    out: Seq<char>,
    s: StateLayoutView<RectTextView, RouteTextView>,
    i: int,
)
    requires
        0 <= i <= s.transitions.len(),
        forall|k: int|
            0 <= k < i ==> end_there(s, (#[trigger] s.transitions[k]).from) && end_there(
                s,
                s.transitions[k].to,
            ),
    ensures
        transitions(out, s, i) is Ok <==> states_connected(s),
        transitions(out, s, i) matches Err(e) ==> e is UnknownEndpoint,
    decreases s.transitions.len() - i,
{
    if i < s.transitions.len() {
        let t = s.transitions[i];
        if let Ok(source) = endpoint_id(s, t.from) {
            if let Ok(target) = endpoint_id(s, t.to) {
                lemma_transitions(
                    connector(
                        out,
                        connector_id(i),
                        label_value(t.label),
                        transition_style(t),
                        (source, target),
                        t.path.points,
                    ),
                    s,
                    i + 1,
                );
            }
        }
    }
}

/// A state diagram is shown exactly if both ends of every transition are there.
pub proof fn law_connected_states_are_shown(s: StateLayoutView<RectTextView, RouteTextView>)
    ensures
        state_document(s) is Ok <==> states_connected(s),
        state_document(s) matches Err(e) ==> e is UnknownEndpoint,
{
    lemma_transitions(
        pseudostates(states(header(), s.states, s.states.len() as int), s),
        s,
        0,
    );
}

} // verus!
