//! State diagrams.
use crate::excalidraw::elements::{
    ellipse, make_ellipse, make_rect, rect, Element, ElementView, Place,
};
use crate::excalidraw::graph::{
    bound_path, box_id, labelled_box, path_label, push_bound_path, push_labelled_box,
    push_path_label,
};
use crate::excalidraw::{scene_view, RenderError, RenderErrorView, SceneView};
use crate::ir::{key_index, position, Endpoint, EndpointView};
use crate::layout::{StateBoxView, StateLayout, StateLayoutView};
use crate::text::{concat3, lemma_views_push, numbered, views};
use vstd::prelude::*;

verus! {

/// The first `n` states.
pub open spec fn states<RV>(ss: Seq<StateBoxView<RV>>, n: int) -> Seq<ElementView>
    decreases n,
{
    if n <= 0 {
        Seq::empty()
    } else {
        labelled_box(
            states(ss, n - 1),
            n - 1,
            rect(box_id(n - 1), Place::Box((n - 1) as usize), Some(3u8)),
            ss[n - 1].label,
        )
    }
}

/// The pseudostates after the elements `out`: a dot for the initial one, a ring
/// and a dot for the final one.
pub open spec fn pseudostates<RV, CV>(
    out: Seq<ElementView>,
    s: StateLayoutView<RV, CV>,
) -> Seq<ElementView> {
    let started = match s.initial {
        Some(_) => out.push(ellipse("initial"@, Place::Initial, true)),
        None => out,
    };
    match s.final_state {
        Some(_) => started.push(ellipse("final-outer"@, Place::FinalOuter, false)).push(
            ellipse("final-inner"@, Place::FinalInner, true),
        ),
        None => started,
    }
}

/// The id of the element at one end of a transition, or what is not there.
pub open spec fn endpoint_id<RV, CV>(s: StateLayoutView<RV, CV>, e: EndpointView) -> Result<
    Seq<char>,
    Seq<char>,
> {
    match e {
        EndpointView::State(id) => match key_index(s.states, id) {
            Some(i) => Ok(box_id(i)),
            None => Err("state \""@ + id + "\" not found in layout"@),
        },
        EndpointView::Initial => if s.initial is Some {
            Ok("initial"@)
        } else {
            Err("Initial pseudostate referenced but not present in layout"@)
        },
        EndpointView::Final => if s.final_state is Some {
            Ok("final-outer"@)
        } else {
            Err("Final pseudostate referenced but not present in layout"@)
        },
    }
}

/// The transitions from `i` on after the elements `out`.
pub open spec fn transitions<RV, CV>(
    out: Seq<ElementView>,
    s: StateLayoutView<RV, CV>,
    i: int,
) -> SceneView
    decreases s.transitions.len() - i,
{
    if i >= s.transitions.len() {
        Ok(out)
    } else {
        let t = s.transitions[i];
        match endpoint_id(s, t.from) {
            Ok(source) => match endpoint_id(s, t.to) {
                Ok(target) => transitions(
                    path_label(
                        bound_path(
                            out,
                            i,
                            source,
                            target,
                            (None, Some("triangle"@)),
                            "solid"@,
                            1,
                        ),
                        i,
                        t.label,
                    ),
                    s,
                    i + 1,
                ),
                Err(description) => Err(RenderErrorView::UnknownEndpoint { description }),
            },
            Err(description) => Err(RenderErrorView::UnknownEndpoint { description }),
        }
    }
}

/// The elements of a state diagram: its states, the pseudostates and its
/// transitions.
pub open spec fn state_scene<RV, CV>(s: StateLayoutView<RV, CV>) -> SceneView {
    transitions(pseudostates(states(s.states, s.states.len() as int), s), s, 0)
}

/// The model of an id, or of what is not there.
pub open spec fn endpoint_id_view(r: Result<String, String>) -> Result<Seq<char>, Seq<char>> {
    match r {
        Ok(id) => Ok(id@),
        Err(description) => Err(description@),
    }
}

fn state_element_id<R: View, C: View>(s: &StateLayout<R, C>, e: &Endpoint) -> (r: Result<
    String,
    String,
>)
    ensures
        endpoint_id_view(r) == endpoint_id(s@, e@),
{
    match e {
        Endpoint::State(id) => match position(s.states.as_slice(), id) {
            Some(i) => Ok(numbered("n", i)),
            None => Err(concat3("state \"", id.as_str(), "\" not found in layout")),
        },
        Endpoint::Initial => if s.initial.is_some() {
            Ok(String::from_str("initial"))
        } else {
            Err(String::from_str("Initial pseudostate referenced but not present in layout"))
        },
        Endpoint::Final => if s.final_state.is_some() {
            Ok(String::from_str("final-outer"))
        } else {
            Err(String::from_str("Final pseudostate referenced but not present in layout"))
        },
    }
}

/// The elements of a state diagram.
pub fn render_state<R: View, C: View>(s: &StateLayout<R, C>) -> (r: Result<
    Vec<Element>,
    RenderError,
>)
    ensures
        scene_view(r) == state_scene(s@),
{
    broadcast use lemma_views_push;

    let ghost m = s@;
    let mut out: Vec<Element> = Vec::new();
    assert(views(out@) =~= Seq::<ElementView>::empty());
    let mut k: usize = 0;
    while k < s.states.len()
        invariant
            k <= s.states@.len(),
            m == s@,
            views(out@) == states(m.states, k as int),
        decreases s.states@.len() - k,
    {
        let shape = make_rect(numbered("n", k), Place::Box(k));
        push_labelled_box(&mut out, k, shape, &s.states[k].label);
        k = k + 1;
    }
    if s.initial.is_some() {
        out.push(make_ellipse("initial", Place::Initial, true));
    }
    if s.final_state.is_some() {
        out.push(make_ellipse("final-outer", Place::FinalOuter, false));
        out.push(make_ellipse("final-inner", Place::FinalInner, true));
    }
    let mut i: usize = 0;
    while i < s.transitions.len()
        invariant
            i <= s.transitions@.len(),
            m == s@,
            state_scene(m) == transitions(views(out@), m, i as int),
        decreases s.transitions@.len() - i,
    {
        let t = &s.transitions[i];
        assert(m.transitions[i as int] == t@);
        let source = match state_element_id(s, &t.from) {
            Ok(id) => id,
            Err(description) => {
                return Err(RenderError::UnknownEndpoint { description });
            },
        };
        let target = match state_element_id(s, &t.to) {
            Ok(id) => id,
            Err(description) => {
                return Err(RenderError::UnknownEndpoint { description });
            },
        };
        push_bound_path(&mut out, i, source, target, (None, Some("triangle")), "solid", 1);
        push_path_label(&mut out, i, &t.label);
        i = i + 1;
    }
    Ok(out)
}

} // verus!
