//! Class diagrams and entity-relationship diagrams.
use crate::excalidraw::elements::{
    line, make_line, make_rect, make_text, make_text_aligned, rect, text, text_aligned, Element,
    ElementView, Place,
};
use crate::excalidraw::graph::{
    bound_path, box_id, dangling, dangling_error, path_id, path_label, push_bound_path,
    push_path_label,
};
use crate::excalidraw::{scene_view, RenderError, SceneView};
use crate::ir::{key_index, position, EndMarker, LineStyle};
use crate::layout::{
    ClassLayout, ClassLayoutView, CompartmentBox, CompartmentBoxView, CompartmentView,
    RelationLayout, RelationLayoutView,
};
use crate::text::{
    concat, concat3, decimal, join, joined, lemma_views_push, numbered, opt_view, push_decimal,
    views,
};
use vstd::prelude::*;

verus! {

/// The arrowhead that comes nearest to a marker. There are fewer arrowheads
/// than markers: the markers for many are shown as triangles and those for zero
/// as dots, each without the bar or the crow's foot beside it.
pub open spec fn arrowhead(marker: EndMarker) -> Option<Seq<char>> {
    match marker {
        EndMarker::Plain => None,
        EndMarker::HollowTriangle => Some("triangle_outline"@),
        EndMarker::OpenArrow => Some("arrow"@),
        EndMarker::FilledDiamond => Some("diamond"@),
        EndMarker::HollowDiamond => Some("diamond_outline"@),
        EndMarker::ErOne => Some("bar"@),
        EndMarker::ErMany => Some("triangle"@),
        EndMarker::ErZeroOrOne => Some("dot"@),
        EndMarker::ErOneOrMany => Some("triangle"@),
        EndMarker::ErZeroOrMany => Some("dot"@),
    }
}

/// The arrowhead that comes nearest to a marker.
pub fn excalidraw_arrowhead(marker: EndMarker) -> (r: Option<&'static str>)
    ensures
        opt_view(r) == arrowhead(marker),
{
    match marker {
        EndMarker::Plain => None,
        EndMarker::HollowTriangle => Some("triangle_outline"),
        EndMarker::OpenArrow => Some("arrow"),
        EndMarker::FilledDiamond => Some("diamond"),
        EndMarker::HollowDiamond => Some("diamond_outline"),
        EndMarker::ErOne => Some("bar"),
        EndMarker::ErMany => Some("triangle"),
        EndMarker::ErZeroOrOne => Some("dot"),
        EndMarker::ErOneOrMany => Some("triangle"),
        EndMarker::ErZeroOrMany => Some("dot"),
    }
}

// ---------------------------------------------------------------------------
// Boxes
// ---------------------------------------------------------------------------

/// The title of a box, below its stereotype where it has one.
pub open spec fn title<RV>(b: CompartmentBoxView<RV>) -> Seq<char> {
    match b.stereotype {
        Some(st) => "\u{ab}"@ + st + "\u{bb}"@ + "\n"@ + b.title,
        None => b.title,
    }
}

/// The first `n` compartments of the box at `i` after the elements `out`: a line
/// and a text each.
pub open spec fn sections(
    out: Seq<ElementView>,
    i: int,
    cs: Seq<CompartmentView>,
    n: int,
) -> Seq<ElementView>
    decreases n,
{
    if n <= 0 {
        out
    } else {
        let c = n - 1;
        sections(out, i, cs, n - 1).push(
            line(
                box_id(i) + "-div"@ + decimal(c),
                Place::Divider(i as usize, c as usize),
                false,
            ),
        ).push(
            text_aligned(
                box_id(i) + "-sect"@ + decimal(c),
                None,
                joined(cs[c].rows, "\n"@),
                Place::Section(i as usize, c as usize),
                "left"@,
                "top"@,
            ),
        )
    }
}

/// The box at `i`: a rectangle, its title and its compartments.
pub open spec fn class_box<RV>(out: Seq<ElementView>, i: int, b: CompartmentBoxView<RV>) -> Seq<
    ElementView,
> {
    sections(
        out.push(rect(box_id(i), Place::Box(i as usize), Some(3u8))).push(
            text(box_id(i) + "-title"@, None, title(b), Place::Title(i as usize)),
        ),
        i,
        b.compartments,
        b.compartments.len() as int,
    )
}

/// The first `n` boxes.
pub open spec fn class_boxes<RV>(bs: Seq<CompartmentBoxView<RV>>, n: int) -> Seq<ElementView>
    decreases n,
{
    if n <= 0 {
        Seq::empty()
    } else {
        class_box(class_boxes(bs, n - 1), n - 1, bs[n - 1])
    }
}

fn push_box<R: View>(out: &mut Vec<Element>, i: usize, b: &CompartmentBox<R>)
    ensures
        views(final(out)@) == class_box(views(old(out)@), i as int, b@),
{
    broadcast use lemma_views_push;

    let ghost v = b@;
    let id = numbered("n", i);
    out.push(make_rect(id.clone(), Place::Box(i)));
    let title = match &b.stereotype {
        Some(st) => {
            let mut t = concat3("\u{ab}", st.as_str(), "\u{bb}");
            t.append("\n");
            t.append(b.title.as_str());
            t
        },
        None => b.title.clone(),
    };
    out.push(make_text(concat(id.as_str(), "-title"), None, title.as_str(), Place::Title(i)));
    let ghost start = views(out@);
    let mut c: usize = 0;
    while c < b.compartments.len()
        invariant
            c <= b.compartments@.len(),
            v == b@,
            id@ == box_id(i as int),
            views(out@) == sections(start, i as int, v.compartments, c as int),
        decreases b.compartments@.len() - c,
    {
        broadcast use lemma_views_push;

        assert(v.compartments[c as int] == b.compartments@[c as int]@);
        let mut div_id = concat(id.as_str(), "-div");
        push_decimal(&mut div_id, c);
        out.push(make_line(div_id, Place::Divider(i, c), false));
        let mut sect_id = concat(id.as_str(), "-sect");
        push_decimal(&mut sect_id, c);
        let content = join(&b.compartments[c].rows, "\n");
        out.push(
            make_text_aligned(
                sect_id,
                None,
                content.as_str(),
                Place::Section(i, c),
                "left",
                "top",
            ),
        );
        c = c + 1;
    }
}

// ---------------------------------------------------------------------------
// Relations
// ---------------------------------------------------------------------------

/// A multiplicity beside the path at `i`.
pub open spec fn multiplicity(
    out: Seq<ElementView>,
    i: int,
    mult: Option<Seq<char>>,
    suffix: Seq<char>,
    place: Place,
) -> Seq<ElementView> {
    match mult {
        Some(m) => out.push(text(path_id(i) + suffix, None, m, place)),
        None => out,
    }
}

/// The relation at `i`, between the boxes at `source` and `target`.
pub open spec fn relation<CV>(
    out: Seq<ElementView>,
    i: int,
    source: int,
    target: int,
    r: RelationLayoutView<CV>,
) -> Seq<ElementView> {
    let drawn = path_label(
        bound_path(
            out,
            i,
            box_id(source),
            box_id(target),
            (arrowhead(r.from_marker), arrowhead(r.to_marker)),
            if r.line == LineStyle::Dashed {
                "dashed"@
            } else {
                "solid"@
            },
            1,
        ),
        i,
        r.label,
    );
    multiplicity(
        multiplicity(drawn, i, r.from_mult, "-mult-from"@, Place::PathStart(i as usize)),
        i,
        r.to_mult,
        "-mult-to"@,
        Place::PathEnd(i as usize),
    )
}

/// The relations from `i` on after the elements `out`.
pub open spec fn relations<RV, CV>(
    out: Seq<ElementView>,
    l: ClassLayoutView<RV, CV>,
    i: int,
) -> SceneView
    decreases l.relations.len() - i,
{
    if i >= l.relations.len() {
        Ok(out)
    } else {
        let r = l.relations[i];
        match key_index(l.boxes, r.from) {
            Some(source) => match key_index(l.boxes, r.to) {
                Some(target) => relations(relation(out, i, source, target, r), l, i + 1),
                None => dangling(r.to),
            },
            None => dangling(r.from),
        }
    }
}

/// The elements of a class diagram: its boxes and its relations.
pub open spec fn class_scene<RV, CV>(l: ClassLayoutView<RV, CV>) -> SceneView {
    relations(class_boxes(l.boxes, l.boxes.len() as int), l, 0)
}

fn push_multiplicity(
    out: &mut Vec<Element>,
    i: usize,
    mult: &Option<String>,
    suffix: &str,
    place: Place,
)
    ensures
        views(final(out)@) == multiplicity(
            views(old(out)@),
            i as int,
            opt_view(*mult),
            suffix@,
            place,
        ),
{
    broadcast use lemma_views_push;

    match mult {
        Some(m) => {
            let id = numbered("e", i);
            out.push(make_text(concat(id.as_str(), suffix), None, m.as_str(), place));
        },
        None => {},
    }
}

fn push_relation<C: View>(
    out: &mut Vec<Element>,
    i: usize,
    source: usize,
    target: usize,
    r: &RelationLayout<C>,
)
    ensures
        views(final(out)@) == relation(
            views(old(out)@),
            i as int,
            source as int,
            target as int,
            r@,
        ),
{
    let style: &'static str = if r.line == LineStyle::Dashed {
        "dashed"
    } else {
        "solid"
    };
    push_bound_path(
        out,
        i,
        numbered("n", source),
        numbered("n", target),
        (excalidraw_arrowhead(r.from_marker), excalidraw_arrowhead(r.to_marker)),
        style,
        1,
    );
    push_path_label(out, i, &r.label);
    push_multiplicity(out, i, &r.from_mult, "-mult-from", Place::PathStart(i));
    push_multiplicity(out, i, &r.to_mult, "-mult-to", Place::PathEnd(i));
}

/// The elements of a class diagram.
pub fn render_class<R: View, C: View>(layout: &ClassLayout<R, C>) -> (r: Result<
    Vec<Element>,
    RenderError,
>)
    ensures
        scene_view(r) == class_scene(layout@),
{
    let ghost v = layout@;
    let mut out: Vec<Element> = Vec::new();
    assert(views(out@) =~= Seq::<ElementView>::empty());
    let mut k: usize = 0;
    while k < layout.boxes.len()
        invariant
            k <= layout.boxes@.len(),
            v == layout@,
            views(out@) == class_boxes(v.boxes, k as int),
        decreases layout.boxes@.len() - k,
    {
        push_box(&mut out, k, &layout.boxes[k]);
        k = k + 1;
    }
    let mut i: usize = 0;
    while i < layout.relations.len()
        invariant
            i <= layout.relations@.len(),
            v == layout@,
            class_scene(v) == relations(views(out@), v, i as int),
        decreases layout.relations@.len() - i,
    {
        let rel = &layout.relations[i];
        assert(v.relations[i as int] == rel@);
        let source: usize = match position(layout.boxes.as_slice(), &rel.from) {
            Some(k) => k,
            None => {
                return Err(dangling_error(&rel.from));
            },
        };
        let target: usize = match position(layout.boxes.as_slice(), &rel.to) {
            Some(k) => k,
            None => {
                return Err(dangling_error(&rel.to));
            },
        };
        push_relation(&mut out, i, source, target, rel);
        i = i + 1;
    }
    Ok(out)
}

/// The elements of an entity-relationship diagram, which is drawn like a class
/// diagram.
pub fn render_er<R: View, C: View>(layout: &ClassLayout<R, C>) -> (r: Result<
    Vec<Element>,
    RenderError,
>)
    ensures
        scene_view(r) == class_scene(layout@),
{
    render_class(layout)
}

} // verus!
