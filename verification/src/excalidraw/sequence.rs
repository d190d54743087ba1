//! Sequences.
use crate::excalidraw::elements::{
    arrow, line, link, make_arrow, make_line, make_rect, make_text, rect, text, ArrowExtra,
    ArrowExtraView, BoundElementRef, Element, ElementView, Place,
};
use crate::excalidraw::graph::{
    box_id, dangling, dangling_error, path_id, path_label, push_path_label,
};
use crate::excalidraw::{scene_view, RenderError, SceneView};
use crate::ir::{has_key, position, ArrowType, LineStyle, ParticipantKind};
use crate::layout::{
    MessageLayout, MessageLayoutView, ParticipantLayout, ParticipantLayoutView, SequenceLayout,
    SequenceLayoutView,
};
use crate::text::{concat, decimal, lemma_views_push, numbered, opt_view, views};
use vstd::prelude::*;

verus! {

/// The stereotype that is shown above a participant's label.
pub open spec fn stereotype(kind: ParticipantKind) -> Option<Seq<char>> {
    match kind {
        ParticipantKind::Default => None,
        ParticipantKind::Actor => Some("«actor»"@),
        ParticipantKind::Boundary => Some("«boundary»"@),
        ParticipantKind::Control => Some("«control»"@),
        ParticipantKind::Entity => Some("«entity»"@),
        ParticipantKind::Database => Some("«database»"@),
        ParticipantKind::Collections => Some("«collections»"@),
        ParticipantKind::Queue => Some("«queue»"@),
    }
}

/// The stereotype that is shown above a participant's label.
pub fn participant_stereotype(kind: ParticipantKind) -> (r: Option<&'static str>)
    ensures
        opt_view(r) == stereotype(kind),
{
    match kind {
        ParticipantKind::Default => None,
        ParticipantKind::Actor => Some("«actor»"),
        ParticipantKind::Boundary => Some("«boundary»"),
        ParticipantKind::Control => Some("«control»"),
        ParticipantKind::Entity => Some("«entity»"),
        ParticipantKind::Database => Some("«database»"),
        ParticipantKind::Collections => Some("«collections»"),
        ParticipantKind::Queue => Some("«queue»"),
    }
}

/// The participant at `i`: its header, its stereotype, its label and its
/// lifeline. The header and the lifeline are in one group.
pub open spec fn participant<HV>(
    out: Seq<ElementView>,
    i: int,
    p: ParticipantLayoutView<HV>,
) -> Seq<ElementView> {
    let id = box_id(i);
    let label_id = id + "-text"@;
    let group = seq!["participant-"@ + decimal(i)];
    let headed = out.push(
        ElementView {
            group_ids: group,
            bound_elements: Some(seq![link(label_id, "text"@)]),
            ..rect(id, Place::Box(i as usize), Some(3u8))
        },
    );
    let titled = match stereotype(p.kind) {
        Some(st) => headed.push(
            text(id + "-stereotype"@, None, st, Place::Stereotype(i as usize)),
        ),
        None => headed,
    };
    titled.push(text(label_id, Some(id), p.label, Place::BoxLabel(i as usize))).push(
        ElementView {
            group_ids: group,
            ..line(id + "-lifeline"@, Place::Lifeline(i as usize), true)
        },
    )
}

/// The first `n` participants.
pub open spec fn participants<HV>(ps: Seq<ParticipantLayoutView<HV>>, n: int) -> Seq<ElementView>
    decreases n,
{
    if n <= 0 {
        Seq::empty()
    } else {
        participant(participants(ps, n - 1), n - 1, ps[n - 1])
    }
}

/// The message at `i`: an arrow that is bound to nothing, and its label.
pub open spec fn message<MV>(out: Seq<ElementView>, i: int, m: MessageLayoutView<MV>) -> Seq<
    ElementView,
> {
    path_label(
        out.push(
            arrow(
                path_id(i),
                Place::Path(i as usize),
                ArrowExtraView {
                    start_binding: None,
                    end_binding: None,
                    start_arrowhead: None,
                    end_arrowhead: if m.arrow == ArrowType::Plain {
                        None
                    } else {
                        Some("triangle"@)
                    },
                },
                if m.line == LineStyle::Dashed {
                    "dashed"@
                } else {
                    "solid"@
                },
                1,
            ),
        ),
        i,
        m.label,
    )
}

/// The messages from `i` on after the elements `out`.
pub open spec fn messages<HV, MV>(
    out: Seq<ElementView>,
    s: SequenceLayoutView<HV, MV>,
    i: int,
) -> SceneView
    decreases s.messages.len() - i,
{
    if i >= s.messages.len() {
        Ok(out)
    } else {
        let m = s.messages[i];
        if !has_key(s.participants, m.from) {
            dangling(m.from)
        } else if !has_key(s.participants, m.to) {
            dangling(m.to)
        } else {
            messages(message(out, i, m), s, i + 1)
        }
    }
}

/// The elements of a sequence: its participants and its messages.
pub open spec fn sequence_scene<HV, MV>(s: SequenceLayoutView<HV, MV>) -> SceneView {
    messages(participants(s.participants, s.participants.len() as int), s, 0)
}

fn push_participant<H: View>(out: &mut Vec<Element>, i: usize, p: &ParticipantLayout<H>)
    ensures
        views(final(out)@) == participant(views(old(out)@), i as int, p@),
{
    broadcast use lemma_views_push;

    let id = numbered("n", i);
    let label_id = concat(id.as_str(), "-text");
    let group_id = numbered("participant-", i);
    let mut header = make_rect(id.clone(), Place::Box(i));
    let mut header_groups: Vec<String> = Vec::new();
    header_groups.push(group_id.clone());
    assert(views(header_groups@) =~= seq![group_id@]);
    header.group_ids = header_groups;
    let mut bound: Vec<BoundElementRef> = Vec::new();
    bound.push(BoundElementRef { id: label_id.clone(), kind: "text" });
    assert(views(bound@) =~= seq![link(label_id@, "text"@)]);
    header.bound_elements = Some(bound);
    out.push(header);
    match participant_stereotype(p.kind) {
        Some(st) => {
            out.push(make_text(concat(id.as_str(), "-stereotype"), None, st, Place::Stereotype(i)));
        },
        None => {},
    }
    out.push(make_text(label_id, Some(id.clone()), p.label.as_str(), Place::BoxLabel(i)));
    let mut lifeline = make_line(concat(id.as_str(), "-lifeline"), Place::Lifeline(i), true);
    let mut groups: Vec<String> = Vec::new();
    groups.push(group_id);
    assert(views(groups@) =~= seq![group_id@]);
    lifeline.group_ids = groups;
    out.push(lifeline);
}

fn push_message<M: View>(out: &mut Vec<Element>, i: usize, m: &MessageLayout<M>)
    ensures
        views(final(out)@) == message(views(old(out)@), i as int, m@),
{
    broadcast use lemma_views_push;

    let end: Option<&'static str> = if m.arrow == ArrowType::Plain {
        None
    } else {
        Some("triangle")
    };
    let style: &'static str = if m.line == LineStyle::Dashed {
        "dashed"
    } else {
        "solid"
    };
    out.push(
        make_arrow(
            numbered("e", i),
            Place::Path(i),
            ArrowExtra {
                start_binding: None,
                end_binding: None,
                start_arrowhead: None,
                end_arrowhead: end,
            },
            style,
            1,
        ),
    );
    push_path_label(out, i, &m.label);
}

/// The elements of a sequence.
pub fn render_sequence<H: View, M: View>(s: &SequenceLayout<H, M>) -> (r: Result<
    Vec<Element>,
    RenderError,
>)
    ensures
        scene_view(r) == sequence_scene(s@),
{
    let ghost v = s@;
    let mut out: Vec<Element> = Vec::new();
    assert(views(out@) =~= Seq::<ElementView>::empty());
    let mut k: usize = 0;
    while k < s.participants.len()
        invariant
            k <= s.participants@.len(),
            v == s@,
            views(out@) == participants(v.participants, k as int),
        decreases s.participants@.len() - k,
    {
        push_participant(&mut out, k, &s.participants[k]);
        k = k + 1;
    }
    let mut i: usize = 0;
    while i < s.messages.len()
        invariant
            i <= s.messages@.len(),
            v == s@,
            sequence_scene(v) == messages(views(out@), v, i as int),
        decreases s.messages@.len() - i,
    {
        let m = &s.messages[i];
        assert(v.messages[i as int] == m@);
        if position(s.participants.as_slice(), &m.from).is_none() {
            return Err(dangling_error(&m.from));
        }
        if position(s.participants.as_slice(), &m.to).is_none() {
            return Err(dangling_error(&m.to));
        }
        push_message(&mut out, i, m);
        i = i + 1;
    }
    Ok(out)
}

} // verus!
