//! Class diagrams.
use crate::dot::{
    dangling, dangling_error, push_quoted, rank_direction, rankdir, record_escape, text_view,
    RenderError, RenderErrorView, TextView,
};
use crate::escape::{dot_quoted, record_text};
use crate::ir::{
    has_key, position, ClassDiagram, ClassDiagramView, ClassNode, ClassNodeView, ClassRelation,
    ClassRelationView, EndMarker, LineStyle,
};
use crate::text::{concat, concat3, join, joined, lemma_views_push, opt_view, views};
use vstd::prelude::*;

verus! {

// ---------------------------------------------------------------------------
// Classes
// ---------------------------------------------------------------------------

/// The first `n` of `rows`, each ended by `\l`, which aligns it to the left.
pub open spec fn rows_first(rows: Seq<Seq<char>>, n: int) -> Seq<char>
    decreases n,
{
    if n <= 0 {
        Seq::empty()
    } else {
        rows_first(rows, n - 1) + record_text(rows[n - 1]) + "\\l"@
    }
}

/// The title of a class, below its stereotype where it has one.
pub open spec fn class_title(c: ClassNodeView) -> Seq<char> {
    match c.stereotype {
        Some(st) => "\u{ab}"@ + record_text(st) + "\u{bb}\\n"@ + record_text(c.name),
        None => record_text(c.name),
    }
}

/// The fields of the record that shows a class. Without attributes, or without
/// methods, there is no field for them.
pub open spec fn class_fields(c: ClassNodeView) -> Seq<Seq<char>> {
    let titled = Seq::empty().push(class_title(c));
    let with_attributes = if c.attributes.len() > 0 {
        titled.push(rows_first(c.attributes, c.attributes.len() as int))
    } else {
        titled
    };
    if c.methods.len() > 0 {
        with_attributes.push(rows_first(c.methods, c.methods.len() as int))
    } else {
        with_attributes
    }
}

/// The label of the record that shows a class.
pub open spec fn record_label(c: ClassNodeView) -> Seq<char> {
    "{"@ + joined(class_fields(c), "|"@) + "}"@
}

/// The rows as one field of a record, each aligned to the left.
pub fn record_rows(rows: &Vec<String>) -> (r: String)
    ensures
        r@ == rows_first(views(rows@), rows@.len() as int),
{
    let ghost all = views(rows@);
    let mut out = String::new();
    let mut i: usize = 0;
    while i < rows.len()
        invariant
            i <= rows@.len(),
            all == views(rows@),
            out@ == rows_first(all, i as int),
        decreases rows@.len() - i,
    {
        assert(all[i as int] == rows@[i as int]@);
        let row = record_escape(rows[i].as_str());
        out.append(row.as_str());
        out.append("\\l");
        i = i + 1;
    }
    out
}

/// The label of the record that shows a class.
pub fn class_record_label(node: &ClassNode) -> (r: String)
    ensures
        r@ == record_label(node@),
{
    broadcast use lemma_views_push;

    let name = record_escape(node.name.as_str());
    let title = match &node.stereotype {
        Some(st) => {
            let st = record_escape(st.as_str());
            let mut t = concat3("\u{ab}", st.as_str(), "\u{bb}\\n");
            t.append(name.as_str());
            t
        },
        None => name,
    };
    let mut fields: Vec<String> = Vec::new();
    assert(views(fields@) =~= Seq::<Seq<char>>::empty());
    fields.push(title);
    if node.attributes.len() > 0 {
        fields.push(record_rows(&node.attributes));
    }
    if node.methods.len() > 0 {
        fields.push(record_rows(&node.methods));
    }
    assert(views(fields@) == class_fields(node@));
    let all = join(&fields, "|");
    concat3("{", all.as_str(), "}")
}

/// The first `n` classes after the text `out`.
pub open spec fn class_stmts(out: Seq<char>, classes: Seq<ClassNodeView>, n: int) -> Seq<char>
    decreases n,
{
    if n <= 0 {
        out
    } else {
        class_stmts(out, classes, n - 1) + "  "@ + dot_quoted(classes[n - 1].id) + " [label=\""@
            + record_label(classes[n - 1]) + "\"];\n"@
    }
}

// ---------------------------------------------------------------------------
// Relations
// ---------------------------------------------------------------------------

/// The Graphviz arrow shape for a marker.
pub open spec fn marker_shape(m: EndMarker) -> Seq<char> {
    match m {
        EndMarker::Plain => "none"@,
        EndMarker::HollowTriangle => "empty"@,
        EndMarker::OpenArrow => "vee"@,
        EndMarker::FilledDiamond => "diamond"@,
        EndMarker::HollowDiamond => "odiamond"@,
        EndMarker::ErOne => "tee"@,
        EndMarker::ErMany => "crow"@,
        EndMarker::ErZeroOrOne => "odottee"@,
        EndMarker::ErOneOrMany => "teecrow"@,
        EndMarker::ErZeroOrMany => "odotcrow"@,
    }
}

/// The Graphviz arrow shape for a marker.
pub fn arrow_shape(marker: EndMarker) -> (r: &'static str)
    ensures
        r@ == marker_shape(marker),
{
    match marker {
        EndMarker::Plain => "none",
        EndMarker::HollowTriangle => "empty",
        EndMarker::OpenArrow => "vee",
        EndMarker::FilledDiamond => "diamond",
        EndMarker::HollowDiamond => "odiamond",
        EndMarker::ErOne => "tee",
        EndMarker::ErMany => "crow",
        EndMarker::ErZeroOrOne => "odottee",
        EndMarker::ErOneOrMany => "teecrow",
        EndMarker::ErZeroOrMany => "odotcrow",
    }
}

/// The attributes with `name`, where there is a value for it.
pub open spec fn with_attribute(
    attributes: Seq<Seq<char>>,
    name: Seq<char>,
    value: Option<Seq<char>>,
) -> Seq<Seq<char>> {
    match value {
        Some(v) => attributes.push(name + dot_quoted(v)),
        None => attributes,
    }
}

fn push_attribute(attributes: &mut Vec<String>, name: &str, value: &Option<String>)
    ensures
        views(final(attributes)@) == with_attribute(
            views(old(attributes)@),
            name@,
            opt_view(*value),
        ),
{
    broadcast use lemma_views_push;

    match value {
        Some(v) => {
            let mut a = String::from_str(name);
            push_quoted(&mut a, v.as_str());
            attributes.push(a);
        },
        None => {},
    }
}

/// The attributes of a relation.
pub open spec fn relation_attributes(r: ClassRelationView) -> Seq<Seq<char>> {
    let marked = Seq::empty().push("dir=both"@).push(
        "arrowtail="@ + marker_shape(r.from_marker),
    ).push("arrowhead="@ + marker_shape(r.to_marker));
    let drawn = if r.line == LineStyle::Dashed {
        marked.push("style=dashed"@)
    } else {
        marked
    };
    with_attribute(
        with_attribute(
            with_attribute(drawn, "label="@, r.label),
            "taillabel="@,
            r.from_mult,
        ),
        "headlabel="@,
        r.to_mult,
    )
}

/// A relation. A dotted one cannot be shown.
pub open spec fn relation_statement(r: ClassRelationView) -> TextView {
    if r.line == LineStyle::Dotted {
        Err(RenderErrorView::UnknownLineStyle { line: "Dotted"@ })
    } else {
        Ok(
            "  "@ + dot_quoted(r.from) + " -> "@ + dot_quoted(r.to) + " ["@ + joined(
                relation_attributes(r),
                " "@,
            ) + "];\n"@,
        )
    }
}

/// A relation.
pub fn relation_stmt(rel: &ClassRelation) -> (r: Result<String, RenderError>)
    ensures
        text_view(r) == relation_statement(rel@),
{
    broadcast use lemma_views_push;

    let mut attributes: Vec<String> = Vec::new();
    assert(views(attributes@) =~= Seq::<Seq<char>>::empty());
    attributes.push(String::from_str("dir=both"));
    attributes.push(concat("arrowtail=", arrow_shape(rel.from_marker)));
    attributes.push(concat("arrowhead=", arrow_shape(rel.to_marker)));
    match rel.line {
        LineStyle::Solid => {},
        LineStyle::Dashed => {
            attributes.push(String::from_str("style=dashed"));
        },
        LineStyle::Dotted => {
            return Err(RenderError::UnknownLineStyle { line: String::from_str("Dotted") });
        },
    }
    push_attribute(&mut attributes, "label=", &rel.label);
    push_attribute(&mut attributes, "taillabel=", &rel.from_mult);
    push_attribute(&mut attributes, "headlabel=", &rel.to_mult);
    assert(views(attributes@) == relation_attributes(rel@));
    let mut out = String::from_str("  ");
    push_quoted(&mut out, rel.from.as_str());
    out.append(" -> ");
    push_quoted(&mut out, rel.to.as_str());
    out.append(" [");
    let all = join(&attributes, " ");
    out.append(all.as_str());
    out.append("];\n");
    Ok(out)
}

/// The relations from `i` on after the text `out`, and the end of the document.
pub open spec fn relation_stmts(out: Seq<char>, c: ClassDiagramView, i: int) -> TextView
    decreases c.relations.len() - i,
{
    if i >= c.relations.len() {
        Ok(out + "}\n"@)
    } else {
        let r = c.relations[i];
        if !has_key(c.classes, r.from) {
            dangling(r.from)
        } else if !has_key(c.classes, r.to) {
            dangling(r.to)
        } else {
            match relation_statement(r) {
                Ok(t) => relation_stmts(out + t, c, i + 1),
                Err(e) => Err(e),
            }
        }
    }
}

/// The document of a class diagram.
pub open spec fn class_document(c: ClassDiagramView) -> TextView {
    let head = "digraph {\n"@ + "  rankdir="@ + rank_direction(c.direction) + ";\n"@
        + "  node [shape=record];\n"@;
    relation_stmts(class_stmts(head, c.classes, c.classes.len() as int), c, 0)
}

/// The document of a class diagram.
pub fn render_class(c: &ClassDiagram) -> (r: Result<String, RenderError>)
    ensures
        text_view(r) == class_document(c@),
{
    let ghost v = c@;
    let mut out = String::from_str("digraph {\n");
    out.append("  rankdir=");
    out.append(rankdir(c.direction));
    out.append(";\n");
    out.append("  node [shape=record];\n");
    let ghost head = out@;
    let mut k: usize = 0;
    while k < c.classes.len()
        invariant
            k <= c.classes@.len(),
            v == c@,
            out@ == class_stmts(head, v.classes, k as int),
        decreases c.classes@.len() - k,
    {
        out.append("  ");
        push_quoted(&mut out, c.classes[k].id.as_str());
        out.append(" [label=\"");
        let label = class_record_label(&c.classes[k]);
        out.append(label.as_str());
        out.append("\"];\n");
        k = k + 1;
    }
    let mut i: usize = 0;
    while i < c.relations.len()
        invariant
            i <= c.relations@.len(),
            v == c@,
            class_document(v) == relation_stmts(out@, v, i as int),
        decreases c.relations@.len() - i,
    {
        let rel = &c.relations[i];
        assert(v.relations[i as int] == rel@);
        if position(c.classes.as_slice(), &rel.from).is_none() {
            return Err(dangling_error(&rel.from));
        }
        if position(c.classes.as_slice(), &rel.to).is_none() {
            return Err(dangling_error(&rel.to));
        }
        match relation_stmt(rel) {
            Ok(t) => {
                out.append(t.as_str());
            },
            Err(e) => {
                return Err(e);
            },
        }
        i = i + 1;
    }
    out.append("}\n");
    Ok(out)
}

} // verus!
