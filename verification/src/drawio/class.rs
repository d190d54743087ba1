//! Class diagrams and entity-relationship diagrams.
use crate::drawio::{
    box_id, connector, connector_id, dangling, dangling_error, edge_label, escape_label, footer,
    header, label_value, mxfile_footer, mxfile_header, push_connector, push_edge_label,
    push_vertex, text_view, vertex, xml_escape, RectText, RectTextView, RenderError,
    RenderErrorView, RouteText, RouteTextView, TextView,
};
use crate::escape::xml_text;
use crate::ir::{has_key, key_index, position, EndMarker, LineStyle};
use crate::layout::{
    classes_connected, ClassLayout, ClassLayoutView, CompartmentBox, CompartmentBoxView,
    CompartmentView, RelationLayout, RelationLayoutView,
};
use crate::text::{concat3, decimal, join, joined, numbered, opt_view, push_decimal, views};
use vstd::prelude::*;

verus! {

// ---------------------------------------------------------------------------
// Boxes
// ---------------------------------------------------------------------------

/// The rows, escaped.
pub open spec fn escaped(rows: Seq<Seq<char>>) -> Seq<Seq<char>> {
    Seq::new(rows.len(), |i: int| xml_text(rows[i]))
}

/// The first `n` compartments after the text `out`, each below a rule.
pub open spec fn sections(out: Seq<char>, cs: Seq<CompartmentView>, n: int) -> Seq<char>
    decreases n,
{
    if n <= 0 {
        out
    } else {
        sections(out, cs, n - 1) + "<hr size=\"1\"/>"@ + joined(
            escaped(cs[n - 1].rows),
            "<br/>"@,
        )
    }
}

/// The HTML that a box shows: its stereotype, its title and its compartments.
pub open spec fn box_value(b: CompartmentBoxView<RectTextView>) -> Seq<char> {
    let top = match b.stereotype {
        Some(st) => "<div style=\"text-align:center\">&#171;"@ + xml_text(st) + "&#187;</div>"@,
        None => Seq::empty(),
    };
    sections(
        top + "<div style=\"text-align:center\"><b>"@ + xml_text(b.title) + "</b></div>"@,
        b.compartments,
        b.compartments.len() as int,
    )
}

fn escape_rows(rows: &Vec<String>) -> (r: Vec<String>)
    ensures
        views(r@) == escaped(views(rows@)),
{
    let ghost all = views(rows@);
    let mut out: Vec<String> = Vec::new();
    let mut i: usize = 0;
    while i < rows.len()
        invariant
            i <= rows@.len(),
            all == views(rows@),
            out@.len() == i,
            forall|k: int| 0 <= k < i ==> (#[trigger] out@[k])@ == xml_text(all[k]),
        decreases rows@.len() - i,
    {
        assert(all[i as int] == rows@[i as int]@);
        out.push(xml_escape(rows[i].as_str()));
        i = i + 1;
    }
    assert(views(out@) =~= escaped(all));
    out
}

/// The HTML that a box shows. It has still to be escaped for an attribute.
pub fn class_box_value(b: &CompartmentBox<RectText>) -> (r: String)
    ensures
        r@ == box_value(b@),
{
    let ghost v = b@;
    let mut out = String::new();
    match &b.stereotype {
        Some(st) => {
            let st = xml_escape(st.as_str());
            out = concat3(
                "<div style=\"text-align:center\">&#171;",
                st.as_str(),
                "&#187;</div>",
            );
        },
        None => {},
    }
    out.append("<div style=\"text-align:center\"><b>");
    let title = xml_escape(b.title.as_str());
    out.append(title.as_str());
    out.append("</b></div>");
    let ghost top = out@;
    let mut i: usize = 0;
    while i < b.compartments.len()
        invariant
            i <= b.compartments@.len(),
            v == b@,
            out@ == sections(top, v.compartments, i as int),
        decreases b.compartments@.len() - i,
    {
        assert(v.compartments[i as int] == b.compartments@[i as int]@);
        out.append("<hr size=\"1\"/>");
        let rows = escape_rows(&b.compartments[i].rows);
        let all = join(&rows, "<br/>");
        out.append(all.as_str());
        i = i + 1;
    }
    out
}

/// The first `n` boxes after the text `out`.
pub open spec fn class_boxes(
    out: Seq<char>,
    bs: Seq<CompartmentBoxView<RectTextView>>,
    n: int,
) -> Seq<char>
    decreases n,
{
    if n <= 0 {
        out
    } else {
        vertex(
            class_boxes(out, bs, n - 1),
            box_id(n - 1),
            xml_text(box_value(bs[n - 1])),
            "rounded=1;whiteSpace=wrap;html=1;align=left;verticalAlign=top;spacingLeft=6;spacingTop=4;spacingBottom=4;"@,
            "1"@,
            bs[n - 1].rect,
        )
    }
}

// ---------------------------------------------------------------------------
// Relations
// ---------------------------------------------------------------------------

/// The arrow for a marker, and whether it is filled.
pub open spec fn marker_arrow(m: EndMarker) -> (Seq<char>, u8) {
    match m {
        EndMarker::Plain => ("none"@, 0),
        EndMarker::HollowTriangle => ("block"@, 0),
        EndMarker::OpenArrow => ("open"@, 0),
        EndMarker::FilledDiamond => ("diamond"@, 1),
        EndMarker::HollowDiamond => ("diamond"@, 0),
        EndMarker::ErOne => ("ERone"@, 0),
        EndMarker::ErMany => ("ERmany"@, 0),
        EndMarker::ErZeroOrOne => ("ERzeroToOne"@, 0),
        EndMarker::ErOneOrMany => ("ERoneToMany"@, 0),
        EndMarker::ErZeroOrMany => ("ERzeroToMany"@, 0),
    }
}

/// The arrow for a marker, and whether it is filled.
pub fn drawio_arrow(marker: EndMarker) -> (r: (&'static str, u8))
    ensures
        (r.0@, r.1) == marker_arrow(marker),
{
    match marker {
        EndMarker::Plain => ("none", 0),
        EndMarker::HollowTriangle => ("block", 0),
        EndMarker::OpenArrow => ("open", 0),
        EndMarker::FilledDiamond => ("diamond", 1),
        EndMarker::HollowDiamond => ("diamond", 0),
        EndMarker::ErOne => ("ERone", 0),
        EndMarker::ErMany => ("ERmany", 0),
        EndMarker::ErZeroOrOne => ("ERzeroToOne", 0),
        EndMarker::ErOneOrMany => ("ERoneToMany", 0),
        EndMarker::ErZeroOrMany => ("ERzeroToMany", 0),
    }
}

/// The style of a relation.
pub open spec fn relation_style(r: RelationLayoutView<RouteTextView>) -> Seq<char> {
    let plain = "edgeStyle=none;html=1;"@;
    let lined = if r.line == LineStyle::Dashed {
        plain + "dashed=1;"@
    } else {
        plain
    };
    lined + "startArrow="@ + marker_arrow(r.from_marker).0 + ";startFill="@ + decimal(
        marker_arrow(r.from_marker).1 as int,
    ) + ";endArrow="@ + marker_arrow(r.to_marker).0 + ";endFill="@ + decimal(
        marker_arrow(r.to_marker).1 as int,
    ) + ";"@
}

/// A multiplicity near one end of the connector `edge`, after the text `out`,
/// where there is one.
pub open spec fn multiplicity(
    out: Seq<char>,
    edge: Seq<char>,
    side: Seq<char>,
    mult: Option<Seq<char>>,
    position: Seq<char>,
) -> Seq<char> {
    match mult {
        Some(m) => edge_label(out, edge + "-mult-"@ + side, xml_text(m), edge, position),
        None => out,
    }
}

/// The relation at `i`, between the boxes at `source` and `target`, and its
/// multiplicities.
pub open spec fn relation(
    out: Seq<char>,
    i: int,
    source: int,
    target: int,
    r: RelationLayoutView<RouteTextView>,
) -> Seq<char> {
    let id = connector_id(i);
    let drawn = connector(
        out,
        id,
        label_value(r.label),
        relation_style(r),
        (box_id(source), box_id(target)),
        r.path.points,
    );
    multiplicity(
        multiplicity(drawn, id, "from"@, r.from_mult, "x=\"-1.00\" "@),
        id,
        "to"@,
        r.to_mult,
        "x=\"1.00\" "@,
    )
}

/// The relations from `i` on after the text `out`, and the end of the document.
pub open spec fn relations(
    out: Seq<char>,
    l: ClassLayoutView<RectTextView, RouteTextView>,
    i: int,
) -> TextView
    decreases l.relations.len() - i,
{
    if i >= l.relations.len() {
        Ok(out + footer())
    } else {
        let r = l.relations[i];
        match key_index(l.boxes, r.from) {
            Some(source) => match key_index(l.boxes, r.to) {
                Some(target) => relations(relation(out, i, source, target, r), l, i + 1),
                None => dangling(r.to),
            },
            None => dangling(r.from),
        }
    }
}

/// The document of a class diagram: its boxes and its relations.
pub open spec fn class_document(l: ClassLayoutView<RectTextView, RouteTextView>) -> TextView {
    relations(class_boxes(header(), l.boxes, l.boxes.len() as int), l, 0)
}

fn style_of_relation(r: &RelationLayout<RouteText>) -> (s: String)
    ensures
        s@ == relation_style(r@),
{
    let mut style = String::from_str("edgeStyle=none;html=1;");
    if r.line == LineStyle::Dashed {
        style.append("dashed=1;");
    }
    let (start, start_fill): (&'static str, u8) = drawio_arrow(r.from_marker);
    let (end, end_fill): (&'static str, u8) = drawio_arrow(r.to_marker);
    style.append("startArrow=");
    style.append(start);
    style.append(";startFill=");
    push_decimal(&mut style, start_fill as usize);
    style.append(";endArrow=");
    style.append(end);
    style.append(";endFill=");
    push_decimal(&mut style, end_fill as usize);
    style.append(";");
    style
}

fn mult_label_cell(
    out: &mut String,
    edge_id: &str,
    side: &str,
    mult: &Option<String>,
    position: &str,
)
    ensures
        final(out)@ == multiplicity(old(out)@, edge_id@, side@, opt_view(*mult), position@),
{
    match mult {
        Some(m) => {
            let id = concat3(edge_id, "-mult-", side);
            let value = xml_escape(m.as_str());
            push_edge_label(out, id.as_str(), value.as_str(), edge_id, position);
        },
        None => {},
    }
}

fn push_relation(
    out: &mut String,
    i: usize,
    source: usize,
    target: usize,
    r: &RelationLayout<RouteText>,
)
    ensures
        final(out)@ == relation(old(out)@, i as int, source as int, target as int, r@),
{
    let id = numbered("e", i);
    let value = escape_label(&r.label);
    let style = style_of_relation(r);
    let source_id = numbered("n", source);
    let target_id = numbered("n", target);
    push_connector(
        out,
        id.as_str(),
        value.as_str(),
        style.as_str(),
        (source_id.as_str(), target_id.as_str()),
        &r.path.points,
    );
    mult_label_cell(out, id.as_str(), "from", &r.from_mult, "x=\"-1.00\" ");
    mult_label_cell(out, id.as_str(), "to", &r.to_mult, "x=\"1.00\" ");
}

/// The document of a class diagram.
pub fn render_class(layout: &ClassLayout<RectText, RouteText>) -> (r: Result<String, RenderError>)
    ensures
        text_view(r) == class_document(layout@),
{
    let ghost v = layout@;
    let mut out = mxfile_header();
    let mut k: usize = 0;
    while k < layout.boxes.len()
        invariant
            k <= layout.boxes@.len(),
            v == layout@,
            out@ == class_boxes(header(), v.boxes, k as int),
        decreases layout.boxes@.len() - k,
    {
        let b = &layout.boxes[k];
        assert(v.boxes[k as int] == b@);
        let id = numbered("n", k);
        let html = class_box_value(b);
        let value = xml_escape(html.as_str());
        push_vertex(
            &mut out,
            id.as_str(),
            value.as_str(),
            "rounded=1;whiteSpace=wrap;html=1;align=left;verticalAlign=top;spacingLeft=6;spacingTop=4;spacingBottom=4;",
            "1",
            &b.rect,
        );
        k = k + 1;
    }
    let mut i: usize = 0;
    while i < layout.relations.len()
        invariant
            i <= layout.relations@.len(),
            v == layout@,
            class_document(v) == relations(out@, v, i as int),
        decreases layout.relations@.len() - i,
    {
        let rel = &layout.relations[i];
        assert(v.relations[i as int] == rel@);
        let source: usize = match position(layout.boxes.as_slice(), &rel.from) {
            Some(k) => k,
            None => {
                return Err(dangling_error(&rel.from));
            },
        };
        let target: usize = match position(layout.boxes.as_slice(), &rel.to) {
            Some(k) => k,
            None => {
                return Err(dangling_error(&rel.to));
            },
        };
        push_relation(&mut out, i, source, target, rel);
        i = i + 1;
    }
    out.append(mxfile_footer());
    Ok(out)
}

/// The document of an entity-relationship diagram, which is drawn like a class
/// diagram.
pub fn render_er(layout: &ClassLayout<RectText, RouteText>) -> (r: Result<String, RenderError>)
    ensures
        text_view(r) == class_document(layout@),
{
    render_class(layout)
}

proof fn lemma_relations(
    out: Seq<char>,
    l: ClassLayoutView<RectTextView, RouteTextView>,
    i: int,
)
    requires
        0 <= i <= l.relations.len(),
        forall|k: int|
            0 <= k < i ==> has_key(l.boxes, (#[trigger] l.relations[k]).from) && has_key(
                l.boxes,
                l.relations[k].to,
            ),
    ensures
        relations(out, l, i) is Ok <==> classes_connected(l),
        relations(out, l, i) matches Err(e) ==> (e matches RenderErrorView::DanglingEdge {
            node_id,
        } && !has_key(l.boxes, node_id)),
    decreases l.relations.len() - i,
{
    if i < l.relations.len() {
        let r = l.relations[i];
        if let Some(source) = key_index(l.boxes, r.from) {
            if let Some(target) = key_index(l.boxes, r.to) {
                lemma_relations(relation(out, i, source, target, r), l, i + 1);
            }
        }
    }
}

/// Boxes are shown exactly if both ends of every relation are boxes. Otherwise
/// the error names an end that is none.
pub proof fn law_connected_classes_are_shown(l: ClassLayoutView<RectTextView, RouteTextView>)
    ensures
        class_document(l) is Ok <==> classes_connected(l),
        class_document(l) matches Err(e) ==> (e matches RenderErrorView::DanglingEdge { node_id }
            && !has_key(l.boxes, node_id)),
{
    lemma_relations(class_boxes(header(), l.boxes, l.boxes.len() as int), l, 0);
}

} // verus!
