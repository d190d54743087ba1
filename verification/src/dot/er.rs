//! Entity-relationship diagrams.
use crate::dot::class::{relation_statement, relation_stmt};
use crate::dot::{
    dangling, dangling_error, html_escape, push_quoted, text_view, RenderError, TextView,
};
use crate::escape::{dot_quoted, xml_text};
use crate::ir::{
    has_key, position, ClassRelation, ClassRelationView, ErAttribute, ErAttributeView, ErDiagram,
    ErDiagramView, ErEntity, ErEntityView, ErRelation, ErRelationView,
};
use crate::text::{copy_opt, join, joined};
use vstd::prelude::*;

verus! {

/// The row of an attribute, after the text `out`: its keys, its type, its name
/// and its comment.
pub open spec fn attribute_row(out: Seq<char>, a: ErAttributeView) -> Seq<char> {
    out + "<TR><TD>"@ + xml_text(joined(a.keys, ","@)) + "</TD><TD ALIGN=\"LEFT\">"@ + xml_text(
        a.type_text,
    ) + "</TD><TD ALIGN=\"LEFT\">"@ + xml_text(a.name) + "</TD><TD ALIGN=\"LEFT\">"@ + xml_text(
        match a.comment {
            Some(c) => c,
            None => ""@,
        },
    ) + "</TD></TR>"@
}

/// The rows of the first `n` attributes, after the text `out`.
pub open spec fn attribute_rows(out: Seq<char>, attributes: Seq<ErAttributeView>, n: int) -> Seq<char>
    decreases n,
{
    if n <= 0 {
        out
    } else {
        attribute_row(attribute_rows(out, attributes, n - 1), attributes[n - 1])
    }
}

/// The table that shows an entity.
pub open spec fn table_label(e: ErEntityView) -> Seq<char> {
    let head = "<TABLE BORDER=\"0\" CELLBORDER=\"1\" CELLSPACING=\"0\" CELLPADDING=\"4\">"@
        + "<TR><TD COLSPAN=\"4\" BGCOLOR=\"LIGHTGREY\"><B>"@ + xml_text(e.name)
        + "</B></TD></TR>"@;
    attribute_rows(head, e.attributes, e.attributes.len() as int) + "</TABLE>"@
}

/// The first `n` entities after the text `out`.
pub open spec fn entity_stmts(out: Seq<char>, entities: Seq<ErEntityView>, n: int) -> Seq<char>
    decreases n,
{
    if n <= 0 {
        out
    } else {
        entity_stmts(out, entities, n - 1) + "  "@ + dot_quoted(entities[n - 1].id) + " [label=<"@
            + table_label(entities[n - 1]) + ">];\n"@
    }
}

/// A relation between entities as one between classes: it has no
/// multiplicities.
pub open spec fn as_class_relation(r: ErRelationView) -> ClassRelationView {
    ClassRelationView {
        from: r.from,
        to: r.to,
        from_marker: r.from_marker,
        to_marker: r.to_marker,
        line: r.line,
        label: r.label,
        from_mult: None,
        to_mult: None,
    }
}

/// The relations from `i` on after the text `out`, and the end of the document.
pub open spec fn er_relation_stmts(out: Seq<char>, e: ErDiagramView, i: int) -> TextView
    decreases e.relations.len() - i,
{
    if i >= e.relations.len() {
        Ok(out + "}\n"@)
    } else {
        let r = e.relations[i];
        if !has_key(e.entities, r.from) {
            dangling(r.from)
        } else if !has_key(e.entities, r.to) {
            dangling(r.to)
        } else {
            match relation_statement(as_class_relation(r)) {
                Ok(t) => er_relation_stmts(out + t, e, i + 1),
                Err(err) => Err(err),
            }
        }
    }
}

/// The document of an entity-relationship diagram.
pub open spec fn er_document(e: ErDiagramView) -> TextView {
    let head = "digraph {\n"@ + "  rankdir=TB;\n"@ + "  node [shape=plaintext];\n"@;
    er_relation_stmts(entity_stmts(head, e.entities, e.entities.len() as int), e, 0)
}

fn push_attribute_row(out: &mut String, a: &ErAttribute)
    ensures
        final(out)@ == attribute_row(old(out)@, a@),
{
    out.append("<TR><TD>");
    let keys = join(&a.keys, ",");
    let keys = html_escape(keys.as_str());
    out.append(keys.as_str());
    out.append("</TD><TD ALIGN=\"LEFT\">");
    let type_text = html_escape(a.type_text.as_str());
    out.append(type_text.as_str());
    out.append("</TD><TD ALIGN=\"LEFT\">");
    let name = html_escape(a.name.as_str());
    out.append(name.as_str());
    out.append("</TD><TD ALIGN=\"LEFT\">");
    let comment = match &a.comment {
        Some(c) => html_escape(c.as_str()),
        None => html_escape(""),
    };
    out.append(comment.as_str());
    out.append("</TD></TR>");
}

/// The table that shows an entity.
pub fn er_table_label(entity: &ErEntity) -> (r: String)
    ensures
        r@ == table_label(entity@),
{
    let ghost v = entity@;
    let mut out = String::from_str(
        "<TABLE BORDER=\"0\" CELLBORDER=\"1\" CELLSPACING=\"0\" CELLPADDING=\"4\">",
    );
    out.append("<TR><TD COLSPAN=\"4\" BGCOLOR=\"LIGHTGREY\"><B>");
    let name = html_escape(entity.name.as_str());
    out.append(name.as_str());
    out.append("</B></TD></TR>");
    let ghost head = out@;
    let mut i: usize = 0;
    while i < entity.attributes.len()
        invariant
            i <= entity.attributes@.len(),
            v == entity@,
            out@ == attribute_rows(head, v.attributes, i as int),
        decreases entity.attributes@.len() - i,
    {
        push_attribute_row(&mut out, &entity.attributes[i]);
        i = i + 1;
    }
    out.append("</TABLE>");
    out
}

/// A relation.
pub fn er_relation_stmt(rel: &ErRelation) -> (r: Result<String, RenderError>)
    ensures
        text_view(r) == relation_statement(as_class_relation(rel@)),
{
    let rel = ClassRelation {
        from: rel.from.clone(),
        to: rel.to.clone(),
        from_marker: rel.from_marker,
        to_marker: rel.to_marker,
        line: rel.line,
        label: copy_opt(&rel.label),
        from_mult: None,
        to_mult: None,
    };
    relation_stmt(&rel)
}

/// The document of an entity-relationship diagram.
pub fn render_er(e: &ErDiagram) -> (r: Result<String, RenderError>)
    ensures
        text_view(r) == er_document(e@),
{
    let ghost v = e@;
    let mut out = String::from_str("digraph {\n");
    out.append("  rankdir=TB;\n");
    out.append("  node [shape=plaintext];\n");
    let ghost head = out@;
    let mut k: usize = 0;
    while k < e.entities.len()
        invariant
            k <= e.entities@.len(),
            v == e@,
            out@ == entity_stmts(head, v.entities, k as int),
        decreases e.entities@.len() - k,
    {
        out.append("  ");
        push_quoted(&mut out, e.entities[k].id.as_str());
        out.append(" [label=<");
        let label = er_table_label(&e.entities[k]);
        out.append(label.as_str());
        out.append(">];\n");
        k = k + 1;
    }
    let mut i: usize = 0;
    while i < e.relations.len()
        invariant
            i <= e.relations@.len(),
            v == e@,
            er_document(v) == er_relation_stmts(out@, v, i as int),
        decreases e.relations@.len() - i,
    {
        let rel = &e.relations[i];
        assert(v.relations[i as int] == rel@);
        if position(e.entities.as_slice(), &rel.from).is_none() {
            return Err(dangling_error(&rel.from));
        }
        if position(e.entities.as_slice(), &rel.to).is_none() {
            return Err(dangling_error(&rel.to));
        }
        match er_relation_stmt(rel) {
            Ok(t) => {
                out.append(t.as_str());
            },
            Err(err) => {
                return Err(err);
            },
        }
        i = i + 1;
    }
    out.append("}\n");
    Ok(out)
}

} // verus!
