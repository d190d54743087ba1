//! Sequences.
use crate::drawio::{
    box_id, connector, connector_id, dangling, dangling_error, edge_label, escape_label, footer,
    header, label_value, mxfile_footer, mxfile_header, push_connector, push_edge_label,
    push_vertex, text_view, vertex, xml_escape, PointText, PointTextView, RectText, RectTextView,
    RenderError, RenderErrorView, TextView,
};
use crate::escape::xml_text;
use crate::excalidraw::sequence::{participant_stereotype, stereotype};
use crate::ir::{has_key, key_index, position, ArrowType, LineStyle, ParticipantKind};
use crate::layout::{
    sequence_connected, MessageLayout, MessageLayoutView, ParticipantLayout,
    ParticipantLayoutView, SequenceLayout, SequenceLayoutView,
};
use crate::text::{concat, concat3, numbered, same_string, views};
use vstd::prelude::*;

verus! {

/// Where a participant stands.
#[derive(Debug, Clone, PartialEq, Eq)]
pub struct ColumnText {
    /// Where its column lies, from the top of the header to the end of the
    /// lifeline.
    pub rect: RectText,
    /// The height of the header.
    pub size: String,
}

/// The model of [`ColumnText`].
#[verifier::ext_equal]
pub struct ColumnTextView {
    pub rect: RectTextView,
    pub size: Seq<char>,
}

impl View for ColumnText {
    type V = ColumnTextView;

    open spec fn view(&self) -> ColumnTextView {
        ColumnTextView { rect: self.rect@, size: self.size@ }
    }
}

/// How a message runs.
#[derive(Debug, Clone, PartialEq, Eq)]
pub struct MessageText {
    /// The points it goes through.
    pub points: Vec<PointText>,
    /// Where on the sender's column it starts: which part of its height is above.
    pub exit_y: String,
    /// Where on the receiver's column it ends: which part of its height is above.
    pub entry_y: String,
}

/// The model of [`MessageText`].
#[verifier::ext_equal]
pub struct MessageTextView {
    pub points: Seq<PointTextView>,
    pub exit_y: Seq<char>,
    pub entry_y: Seq<char>,
}

impl View for MessageText {
    type V = MessageTextView;

    open spec fn view(&self) -> MessageTextView {
        MessageTextView {
            points: views(self.points@),
            exit_y: self.exit_y@,
            entry_y: self.entry_y@,
        }
    }
}

// ---------------------------------------------------------------------------
// Participants
// ---------------------------------------------------------------------------

/// The value of a participant's cell: its label, below its stereotype where it
/// has one. The label is escaped, and the tags round the stereotype stand as they
/// are.
pub open spec fn participant_value(label: Seq<char>, kind: ParticipantKind) -> Seq<char> {
    match stereotype(kind) {
        Some(st) => "<i>"@ + st + "</i><br>"@ + xml_text(label),
        None => xml_text(label),
    }
}

/// The value of a participant's cell.
pub fn participant_cell_value(label: &str, kind: ParticipantKind) -> (r: String)
    ensures
        r@ == participant_value(label@, kind),
{
    let value = xml_escape(label);
    match participant_stereotype(kind) {
        Some(st) => {
            let mut out = concat3("<i>", st, "</i><br>");
            out.append(value.as_str());
            out
        },
        None => value,
    }
}

/// The first `n` participants after the text `out`.
pub open spec fn participants(
    out: Seq<char>,
    ps: Seq<ParticipantLayoutView<ColumnTextView>>,
    n: int,
) -> Seq<char>
    decreases n,
{
    if n <= 0 {
        out
    } else {
        let p = ps[n - 1];
        vertex(
            participants(out, ps, n - 1),
            box_id(n - 1),
            participant_value(p.label, p.kind),
            "shape=umlLifeline;perimeter=lifelinePerimeter;size="@ + p.place.size
                + ";container=0;collapsible=0;whiteSpace=wrap;html=1;"@,
            "1"@,
            p.place.rect,
        )
    }
}

// ---------------------------------------------------------------------------
// Messages
// ---------------------------------------------------------------------------

/// The style of a message. Its ends are fixed to heights on the lifelines.
pub open spec fn message_style(m: MessageLayoutView<MessageTextView>) -> Seq<char> {
    let plain = "edgeStyle=none;html=1;"@;
    let lined = if m.line == LineStyle::Dashed {
        plain + "dashed=1;"@
    } else {
        plain
    };
    let fixed = lined + "exitX=0.5;exitY="@ + m.path.exit_y
        + ";exitDx=0;exitDy=0;exitPerimeter=0;entryX=0.5;entryY="@ + m.path.entry_y
        + ";entryDx=0;entryDy=0;entryPerimeter=0;"@;
    if m.arrow == ArrowType::Plain {
        fixed + "endArrow=none;"@
    } else {
        fixed
    }
}

/// The message at `i`, between the columns at `source` and `target`. The label
/// of one that leads from a participant to itself is a cell of its own.
pub open spec fn message(
    out: Seq<char>,
    i: int,
    source: int,
    target: int,
    m: MessageLayoutView<MessageTextView>,
) -> Seq<char> {
    let to_itself = m.from == m.to;
    let drawn = connector(
        out,
        connector_id(i),
        if to_itself {
            ""@
        } else {
            label_value(m.label)
        },
        message_style(m),
        (box_id(source), box_id(target)),
        m.path.points,
    );
    if to_itself && m.label is Some {
        edge_label(
            drawn,
            connector_id(i) + "_label"@,
            label_value(m.label),
            connector_id(i),
            ""@,
        )
    } else {
        drawn
    }
}

/// The messages from `i` on after the text `out`, and the end of the document.
pub open spec fn messages(
    out: Seq<char>,
    s: SequenceLayoutView<ColumnTextView, MessageTextView>,
    i: int,
) -> TextView
    decreases s.messages.len() - i,
{
    if i >= s.messages.len() {
        Ok(out + footer())
    } else {
        let m = s.messages[i];
        match key_index(s.participants, m.from) {
            Some(source) => match key_index(s.participants, m.to) {
                Some(target) => messages(message(out, i, source, target, m), s, i + 1),
                None => dangling(m.to),
            },
            None => dangling(m.from),
        }
    }
}

/// The document of a sequence: its participants and its messages.
pub open spec fn sequence_document(
    s: SequenceLayoutView<ColumnTextView, MessageTextView>,
) -> TextView {
    messages(participants(header(), s.participants, s.participants.len() as int), s, 0)
}

fn push_participant(out: &mut String, i: usize, p: &ParticipantLayout<ColumnText>)
    ensures
        final(out)@ == vertex(
            old(out)@,
            box_id(i as int),
            participant_value(p.label@, p.kind),
            "shape=umlLifeline;perimeter=lifelinePerimeter;size="@ + p.place.size@
                + ";container=0;collapsible=0;whiteSpace=wrap;html=1;"@,
            "1"@,
            p.place.rect@,
        ),
{
    let id = numbered("n", i);
    let value = participant_cell_value(p.label.as_str(), p.kind);
    let style = concat3(
        "shape=umlLifeline;perimeter=lifelinePerimeter;size=",
        p.place.size.as_str(),
        ";container=0;collapsible=0;whiteSpace=wrap;html=1;",
    );
    push_vertex(out, id.as_str(), value.as_str(), style.as_str(), "1", &p.place.rect);
}

fn style_of_message(m: &MessageLayout<MessageText>) -> (r: String)
    ensures
        r@ == message_style(m@),
{
    let mut style = String::from_str("edgeStyle=none;html=1;");
    if m.line == LineStyle::Dashed {
        style.append("dashed=1;");
    }
    style.append("exitX=0.5;exitY=");
    style.append(m.path.exit_y.as_str());
    style.append(";exitDx=0;exitDy=0;exitPerimeter=0;entryX=0.5;entryY=");
    style.append(m.path.entry_y.as_str());
    style.append(";entryDx=0;entryDy=0;entryPerimeter=0;");
    if m.arrow == ArrowType::Plain {
        style.append("endArrow=none;");
    }
    style
}

fn push_message(
    out: &mut String,
    i: usize,
    source: usize,
    target: usize,
    m: &MessageLayout<MessageText>,
)
    ensures
        final(out)@ == message(old(out)@, i as int, source as int, target as int, m@),
{
    let id = numbered("e", i);
    let value = escape_label(&m.label);
    let style = style_of_message(m);
    let to_itself = same_string(&m.from, &m.to);
    let source_id = numbered("n", source);
    let target_id = numbered("n", target);
    push_connector(
        out,
        id.as_str(),
        if to_itself {
            ""
        } else {
            value.as_str()
        },
        style.as_str(),
        (source_id.as_str(), target_id.as_str()),
        &m.path.points,
    );
    if to_itself && m.label.is_some() {
        let label_id = concat(id.as_str(), "_label");
        push_edge_label(out, label_id.as_str(), value.as_str(), id.as_str(), "");
    }
}

/// The document of a sequence.
pub fn render_sequence(s: &SequenceLayout<ColumnText, MessageText>) -> (r: Result<
    String,
    RenderError,
>)
    ensures
        text_view(r) == sequence_document(s@),
{
    let ghost v = s@;
    let mut out = mxfile_header();
    let mut k: usize = 0;
    while k < s.participants.len()
        invariant
            k <= s.participants@.len(),
            v == s@,
            out@ == participants(header(), v.participants, k as int),
        decreases s.participants@.len() - k,
    {
        assert(v.participants[k as int] == s.participants@[k as int]@);
        push_participant(&mut out, k, &s.participants[k]);
        k = k + 1;
    }
    let mut i: usize = 0;
    while i < s.messages.len()
        invariant
            i <= s.messages@.len(),
            v == s@,
            sequence_document(v) == messages(out@, v, i as int),
        decreases s.messages@.len() - i,
    {
        let m = &s.messages[i];
        assert(v.messages[i as int] == m@);
        let source: usize = match position(s.participants.as_slice(), &m.from) {
            Some(k) => k,
            None => {
                return Err(dangling_error(&m.from));
            },
        };
        let target: usize = match position(s.participants.as_slice(), &m.to) {
            Some(k) => k,
            None => {
                return Err(dangling_error(&m.to));
            },
        };
        push_message(&mut out, i, source, target, m);
        i = i + 1;
    }
    out.append(mxfile_footer());
    Ok(out)
}

proof fn lemma_messages(
    out: Seq<char>,
    s: SequenceLayoutView<ColumnTextView, MessageTextView>,
    i: int,
)
    requires
        0 <= i <= s.messages.len(),
        forall|k: int|
            0 <= k < i ==> has_key(s.participants, (#[trigger] s.messages[k]).from) && has_key(
                s.participants,
                s.messages[k].to,
            ),
    ensures
        messages(out, s, i) is Ok <==> sequence_connected(s),
        messages(out, s, i) matches Err(e) ==> (e matches RenderErrorView::DanglingEdge { node_id }
            && !has_key(s.participants, node_id)),
    decreases s.messages.len() - i,
{
    if i < s.messages.len() {
        let m = s.messages[i];
        if let Some(source) = key_index(s.participants, m.from) {
            if let Some(target) = key_index(s.participants, m.to) {
                lemma_messages(message(out, i, source, target, m), s, i + 1);
            }
        }
    }
}

/// A sequence is shown exactly if both ends of every message are participants.
/// Otherwise the error names an end that is none.
pub proof fn law_connected_sequences_are_shown(
    s: SequenceLayoutView<ColumnTextView, MessageTextView>,
)
    ensures
        sequence_document(s) is Ok <==> sequence_connected(s),
        sequence_document(s) matches Err(e) ==> (e matches RenderErrorView::DanglingEdge {
            node_id,
        } && !has_key(s.participants, node_id)),
{
    lemma_messages(participants(header(), s.participants, s.participants.len() as int), s, 0);
}

} // verus!
