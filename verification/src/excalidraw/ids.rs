//! That no two elements of a scene have the same id.
use crate::excalidraw::class::{
    arrowhead, class_boxes, class_scene, multiplicity, relation, relations, sections, title,
};
use crate::excalidraw::elements::{
    arrow, bind, ellipse, line, link, rect, text, text_aligned, ArrowExtraView,
    BoundElementRefView, ElementView, Place,
};
use crate::excalidraw::{exported, layout_scene, seeded};
use crate::excalidraw::graph::{
    bound_path, box_id, containers, edge, edge_heads, edge_style, edges, graph_scene,
    labelled_box, node_roundness, node_shape, nodes, path_id, path_label,
};
use crate::excalidraw::sequence::{message, messages, participants, sequence_scene, stereotype};
use crate::excalidraw::state::{endpoint_id, pseudostates, state_scene, states, transitions};
use crate::ir::{distinct_keys, key_index, lemma_key_from, ArrowType, LineStyle, LineWeight, Named};
use crate::layout::{
    ClassLayoutView, CompartmentBoxView, CompartmentView, ContainerLayoutView, GraphLayoutView,
    NodeLayoutView, ParticipantLayoutView, SemanticLayoutView, SequenceLayoutView, StateBoxView,
    StateLayoutView,
};
use crate::text::{decimal, digit, joined};
use vstd::prelude::*;

verus! {

// ---------------------------------------------------------------------------
// Numbered ids
// ---------------------------------------------------------------------------

/// What may stand behind the number in an id.
pub open spec fn is_tail(s: Seq<char>) -> bool {
    s.len() == 0 || s[0] == '-'
}

/// The id made of a letter, a number and a tail.
pub open spec fn tag(h: char, k: int, s: Seq<char>) -> Seq<char> {
    seq![h] + decimal(k) + s
}

/// Whether an id is made of the letter `h`, the number `k` and a tail.
pub open spec fn tagged(id: Seq<char>, h: char, k: int, s: Seq<char>) -> bool {
    0 <= k && is_tail(s) && id == tag(h, k, s)
}

/// Whether an id is made of the letter `h` and a number below `n`.
pub open spec fn numbered_below(id: Seq<char>, h: char, n: int) -> bool {
    exists|k: int, s: Seq<char>| k < n && #[trigger] tagged(id, h, k, s)
}

proof fn lemma_digits(n: int)
    requires
        0 <= n,
    ensures
        decimal(n).len() > 0,
        forall|i: int| 0 <= i < decimal(n).len() ==> decimal(n)[i] != '-',
    decreases n,
{
    if n >= 10 {
        lemma_digits(n / 10);
    }
}

/// Different numbers have different digits.
pub proof fn lemma_decimal_injective(a: int, b: int)
    requires
        0 <= a,
        0 <= b,
        decimal(a) == decimal(b),
    ensures
        a == b,
    decreases a,
{
    lemma_digits(a / 10);
    lemma_digits(b / 10);
    let s = decimal(a);
    assert(s.last() == digit(a % 10) && s.last() == digit(b % 10));
    assert(a % 10 == b % 10);
    if a >= 10 && b >= 10 {
        assert(decimal(a).drop_last() =~= decimal(a / 10));
        assert(decimal(b).drop_last() =~= decimal(b / 10));
        lemma_decimal_injective(a / 10, b / 10);
    }
}

/// An id is made of one letter, one number and one tail.
pub proof fn lemma_tagged(
    id: Seq<char>,
    h: char,
    k: int,
    s: Seq<char>,
    g: char,
    l: int,
    t: Seq<char>,
)
    requires
        tagged(id, h, k, s),
        tagged(id, g, l, t),
    ensures
        h == g,
        k == l,
        s == t,
{
    let a = decimal(k);
    let b = decimal(l);
    let m = a.len() as int;
    let n = b.len() as int;
    lemma_digits(k);
    lemma_digits(l);
    assert(id[0] == h && id[0] == g);
    assert forall|i: int| 0 <= i < a.len() implies id[i + 1] == a[i] by {}
    assert forall|i: int| 0 <= i < b.len() implies id[i + 1] == b[i] by {}
    if a.len() < b.len() {
        assert(id[m + 1] == b[m]);
        assert(s.len() > 0 && id[m + 1] == s[0]);
    }
    if b.len() < a.len() {
        assert(id[n + 1] == a[n]);
        assert(t.len() > 0 && id[n + 1] == t[0]);
    }
    assert(a =~= b) by {
        assert forall|i: int| 0 <= i < a.len() implies a[i] == b[i] by {
            assert(id[i + 1] == a[i] && id[i + 1] == b[i]);
        }
    }
    lemma_decimal_injective(k, l);
    assert(s =~= id.skip(m + 1));
    assert(t =~= id.skip(n + 1));
}

/// An id with a letter and a number is not among those with another letter or a
/// lower number.
proof fn lemma_not_below(id: Seq<char>, h: char, k: int, s: Seq<char>)
    requires
        tagged(id, h, k, s),
    ensures
        forall|g: char, n: int| g != h || n <= k ==> !#[trigger] numbered_below(id, g, n),
{
    assert forall|g: char, n: int| g != h || n <= k implies !#[trigger] numbered_below(
        id,
        g,
        n,
    ) by {
        if numbered_below(id, g, n) {
            let (l, t) = choose|l: int, t: Seq<char>| l < n && #[trigger] tagged(id, g, l, t);
            lemma_tagged(id, h, k, s, g, l, t);
        }
    }
}

// ---------------------------------------------------------------------------
// Scenes
// ---------------------------------------------------------------------------

/// How far the boxes, the paths and the containers have been numbered.
pub struct Counts {
    pub boxes: int,
    pub paths: int,
    pub containers: int,
}

/// Whether an id was given out: it is numbered, or it is one of `used`.
pub open spec fn given(id: Seq<char>, c: Counts, used: Set<Seq<char>>) -> bool {
    used.contains(id) || numbered_below(id, 'n', c.boxes) || numbered_below(id, 'e', c.paths)
        || numbered_below(id, 'c', c.containers)
}

/// Whether the ids are distinct, and all of them were given out.
pub open spec fn ids_ok(out: Seq<ElementView>, c: Counts, used: Set<Seq<char>>) -> bool {
    distinct_keys(out) && forall|i: int|
        0 <= i < out.len() ==> given((#[trigger] out[i]).id, c, used)
}

proof fn lemma_give(out: Seq<ElementView>, e: ElementView, c: Counts, used: Set<Seq<char>>)
    requires
        ids_ok(out, c, used),
        !given(e.id, c, used),
    ensures
        ids_ok(out.push(e), c, used.insert(e.id)),
{
    let after = out.push(e);
    assert forall|i: int, j: int| 0 <= i < j < after.len() implies after[i].key()
        != after[j].key() by {
        assert(given(out[i].id, c, used));
        if j < out.len() {
            assert(out[i].key() != out[j].key());
        }
    }
    assert forall|i: int| 0 <= i < after.len() implies given(
        (#[trigger] after[i]).id,
        c,
        used.insert(e.id),
    ) by {
        if i < out.len() {
            assert(given(out[i].id, c, used));
        }
    }
}

/// The next id with a letter was not given out, unless it is one of `used`.
proof fn lemma_next(id: Seq<char>, h: char, k: int, s: Seq<char>, c: Counts, used: Set<Seq<char>>)
    requires
        tagged(id, h, k, s),
        h == 'n' ==> c.boxes <= k,
        h == 'e' ==> c.paths <= k,
        h == 'c' ==> c.containers <= k,
        !used.contains(id),
    ensures
        !given(id, c, used),
{
    lemma_not_below(id, h, k, s);
}

/// Counting further takes in what was used.
proof fn lemma_count(
    out: Seq<ElementView>,
    c: Counts,
    used: Set<Seq<char>>,
    d: Counts,
    left: Set<Seq<char>>,
)
    requires
        ids_ok(out, c, used),
        c.boxes <= d.boxes,
        c.paths <= d.paths,
        c.containers <= d.containers,
        forall|id: Seq<char>| #[trigger] used.contains(id) ==> given(id, d, left),
    ensures
        ids_ok(out, d, left),
{
    assert forall|i: int| 0 <= i < out.len() implies given((#[trigger] out[i]).id, d, left) by {
        let id = out[i].id;
        assert(given(id, c, used));
        if numbered_below(id, 'n', c.boxes) {
            let (k, s) = choose|k: int, s: Seq<char>|
                k < c.boxes && #[trigger] tagged(id, 'n', k, s);
            assert(k < d.boxes && tagged(id, 'n', k, s));
        } else if numbered_below(id, 'e', c.paths) {
            let (k, s) = choose|k: int, s: Seq<char>|
                k < c.paths && #[trigger] tagged(id, 'e', k, s);
            assert(k < d.paths && tagged(id, 'e', k, s));
        } else if numbered_below(id, 'c', c.containers) {
            let (k, s) = choose|k: int, s: Seq<char>|
                k < c.containers && #[trigger] tagged(id, 'c', k, s);
            assert(k < d.containers && tagged(id, 'c', k, s));
        }
    }
}

/// Binding gives no id out.
proof fn lemma_bind_ids(
    out: Seq<ElementView>,
    owner: Seq<char>,
    r: BoundElementRefView,
    c: Counts,
    used: Set<Seq<char>>,
)
    requires
        ids_ok(out, c, used),
    ensures
        ids_ok(bind(out, owner, r), c, used),
{
    lemma_key_from(out, owner, 0);
    let after = bind(out, owner, r);
    assert forall|i: int| 0 <= i < after.len() implies (#[trigger] after[i]).id == out[i].id by {}
    assert forall|i: int, j: int| 0 <= i < j < after.len() implies after[i].key()
        != after[j].key() by {
        assert(out[i].key() != out[j].key());
    }
    assert forall|i: int| 0 <= i < after.len() implies given(
        (#[trigger] after[i]).id,
        c,
        used,
    ) by {
        assert(given(out[i].id, c, used));
    }
}

/// The ids of boxes and paths are tagged.
proof fn lemma_names(i: int)
    requires
        0 <= i,
    ensures
        tagged(box_id(i), 'n', i, Seq::empty()),
        tagged(path_id(i), 'e', i, Seq::empty()),
        tagged("c"@ + decimal(i), 'c', i, Seq::empty()),
        forall|s: Seq<char>|
            is_tail(s) ==> #[trigger] tagged(box_id(i) + s, 'n', i, s) && tagged(
                path_id(i) + s,
                'e',
                i,
                s,
            ) && tagged("c"@ + decimal(i) + s, 'c', i, s),
{
    reveal_strlit("n");
    reveal_strlit("e");
    reveal_strlit("c");
    assert("n"@ =~= seq!['n']);
    assert("e"@ =~= seq!['e']);
    assert("c"@ =~= seq!['c']);
    assert(box_id(i) =~= tag('n', i, Seq::empty()));
    assert(path_id(i) =~= tag('e', i, Seq::empty()));
    assert("c"@ + decimal(i) =~= tag('c', i, Seq::empty()));
}

/// Whether a set holds no tagged id.
pub open spec fn apart(keep: Set<Seq<char>>) -> bool {
    forall|id: Seq<char>, h: char, k: int, s: Seq<char>|
        (h == 'n' || h == 'e' || h == 'c') && #[trigger] tagged(id, h, k, s) ==> !keep.contains(id)
}

/// The ids of `keep`, and those with the letter `h`, the number `k` and one of
/// `tails`.
pub open spec fn using(keep: Set<Seq<char>>, h: char, k: int, tails: Set<Seq<char>>) -> Set<
    Seq<char>,
> {
    Set::new(
        |id: Seq<char>|
            keep.contains(id) || exists|s: Seq<char>|
                tails.contains(s) && #[trigger] tagged(id, h, k, s),
    )
}

proof fn lemma_start(
    out: Seq<ElementView>,
    c: Counts,
    keep: Set<Seq<char>>,
    h: char,
    k: int,
    tails: Set<Seq<char>>,
)
    requires
        ids_ok(out, c, keep),
    ensures
        ids_ok(out, c, using(keep, h, k, tails)),
{
    lemma_count(out, c, keep, c, using(keep, h, k, tails));
}

proof fn lemma_more(
    out: Seq<ElementView>,
    c: Counts,
    keep: Set<Seq<char>>,
    h: char,
    k: int,
    tails: Set<Seq<char>>,
    s: Seq<char>,
)
    requires
        ids_ok(out, c, using(keep, h, k, tails)),
    ensures
        ids_ok(out, c, using(keep, h, k, tails.insert(s))),
{
    let a = using(keep, h, k, tails);
    let b = using(keep, h, k, tails.insert(s));
    assert forall|id: Seq<char>| #[trigger] a.contains(id) implies given(id, c, b) by {
        if !keep.contains(id) {
            let t = choose|t: Seq<char>| tails.contains(t) && #[trigger] tagged(id, h, k, t);
            assert(tails.insert(s).contains(t) && tagged(id, h, k, t));
        }
    }
    lemma_count(out, c, a, c, b);
}

/// An element with a new tail is added.
proof fn lemma_step(
    out: Seq<ElementView>,
    e: ElementView,
    c: Counts,
    keep: Set<Seq<char>>,
    h: char,
    k: int,
    tails: Set<Seq<char>>,
    s: Seq<char>,
)
    requires
        ids_ok(out, c, using(keep, h, k, tails)),
        apart(keep),
        h == 'n' || h == 'e' || h == 'c',
        h == 'n' ==> c.boxes <= k,
        h == 'e' ==> c.paths <= k,
        h == 'c' ==> c.containers <= k,
        tagged(e.id, h, k, s),
        !tails.contains(s),
    ensures
        ids_ok(out.push(e), c, using(keep, h, k, tails.insert(s))),
{
    let a = using(keep, h, k, tails);
    let b = using(keep, h, k, tails.insert(s));
    if a.contains(e.id) {
        let t = choose|t: Seq<char>| tails.contains(t) && #[trigger] tagged(e.id, h, k, t);
        lemma_tagged(e.id, h, k, s, h, k, t);
    }
    lemma_next(e.id, h, k, s, c, a);
    lemma_give(out, e, c, a);
    assert forall|id: Seq<char>| #[trigger] a.insert(e.id).contains(id) implies given(
        id,
        c,
        b,
    ) by {
        if id == e.id {
            assert(tails.insert(s).contains(s) && tagged(id, h, k, s));
        } else if !keep.contains(id) {
            let t = choose|t: Seq<char>| tails.contains(t) && #[trigger] tagged(id, h, k, t);
            assert(tails.insert(s).contains(t) && tagged(id, h, k, t));
        }
    }
    lemma_count(out.push(e), c, a.insert(e.id), c, b);
}

/// The number is taken.
proof fn lemma_done(
    out: Seq<ElementView>,
    c: Counts,
    keep: Set<Seq<char>>,
    h: char,
    k: int,
    tails: Set<Seq<char>>,
    d: Counts,
)
    requires
        ids_ok(out, c, using(keep, h, k, tails)),
        h == 'n' || h == 'e' || h == 'c',
        c.boxes <= d.boxes,
        c.paths <= d.paths,
        c.containers <= d.containers,
        h == 'n' ==> k < d.boxes,
        h == 'e' ==> k < d.paths,
        h == 'c' ==> k < d.containers,
    ensures
        ids_ok(out, d, keep),
{
    let a = using(keep, h, k, tails);
    assert forall|id: Seq<char>| #[trigger] a.contains(id) implies given(id, d, keep) by {
        if !keep.contains(id) {
            let t = choose|t: Seq<char>| tails.contains(t) && #[trigger] tagged(id, h, k, t);
            assert(tagged(id, h, k, t));
        }
    }
    lemma_count(out, c, a, d, keep);
}

// ---------------------------------------------------------------------------
// The parts of a scene
// ---------------------------------------------------------------------------

proof fn lemma_labelled_box_ids(
    out: Seq<ElementView>,
    i: int,
    shape: ElementView,
    label: Seq<char>,
    c: Counts,
    keep: Set<Seq<char>>,
)
    requires
        ids_ok(out, c, keep),
        apart(keep),
        0 <= i,
        c.boxes == i,
        shape.id == box_id(i),
    ensures
        ids_ok(labelled_box(out, i, shape, label), (Counts { boxes: i + 1, ..c }), keep),
{
    reveal_strlit("-text");
    lemma_names(i);
    let label_id = box_id(i) + "-text"@;
    let owner = ElementView { bound_elements: Some(seq![link(label_id, "text"@)]), ..shape };
    let t = text(label_id, Some(box_id(i)), label, Place::BoxLabel(i as usize));
    let none = Set::<Seq<char>>::empty();
    let plain = none.insert(Seq::empty());
    assert(is_tail("-text"@) && "-text"@.len() == 5);
    assert(tagged(label_id, 'n', i, "-text"@));
    lemma_start(out, c, keep, 'n', i, none);
    lemma_step(out, owner, c, keep, 'n', i, none, Seq::empty());
    lemma_step(out.push(owner), t, c, keep, 'n', i, plain, "-text"@);
    lemma_done(
        out.push(owner).push(t),
        c,
        keep,
        'n',
        i,
        plain.insert("-text"@),
        Counts { boxes: i + 1, ..c },
    );
}

/// The tails of a path that has only been drawn.
pub open spec fn drawn() -> Set<Seq<char>> {
    Set::empty().insert(Seq::empty())
}

proof fn lemma_bound_path_ids(
    out: Seq<ElementView>,
    i: int,
    source: Seq<char>,
    target: Seq<char>,
    heads: (Option<Seq<char>>, Option<Seq<char>>),
    style: Seq<char>,
    width: u8,
    c: Counts,
    keep: Set<Seq<char>>,
)
    requires
        ids_ok(out, c, keep),
        apart(keep),
        0 <= i,
        c.paths == i,
    ensures
        ids_ok(
            bound_path(out, i, source, target, heads, style, width),
            c,
            using(keep, 'e', i, drawn()),
        ),
{
    let e = arrow(
        path_id(i),
        Place::Path(i as usize),
        ArrowExtraView {
            start_binding: Some(source),
            end_binding: Some(target),
            start_arrowhead: heads.0,
            end_arrowhead: heads.1,
        },
        style,
        width,
    );
    let r = link(path_id(i), "arrow"@);
    let used = using(keep, 'e', i, drawn());
    lemma_names(i);
    lemma_start(out, c, keep, 'e', i, Set::empty());
    lemma_step(out, e, c, keep, 'e', i, Set::empty(), Seq::empty());
    lemma_bind_ids(out.push(e), source, r, c, used);
    lemma_bind_ids(bind(out.push(e), source, r), target, r, c, used);
}

proof fn lemma_path_label_ids(
    out: Seq<ElementView>,
    i: int,
    label: Option<Seq<char>>,
    c: Counts,
    keep: Set<Seq<char>>,
)
    requires
        ids_ok(out, c, using(keep, 'e', i, drawn())),
        apart(keep),
        0 <= i,
        c.paths == i,
    ensures
        ids_ok(path_label(out, i, label), c, using(keep, 'e', i, drawn().insert("-text"@))),
{
    reveal_strlit("-text");
    lemma_names(i);
    let label_id = path_id(i) + "-text"@;
    assert(is_tail("-text"@) && "-text"@.len() == 5);
    assert(tagged(box_id(i) + "-text"@, 'n', i, "-text"@));
    match label {
        Some(l) => {
            let t = text(label_id, Some(path_id(i)), l, Place::PathLabel(i as usize));
            let used = using(keep, 'e', i, drawn().insert("-text"@));
            lemma_step(out, t, c, keep, 'e', i, drawn(), "-text"@);
            lemma_bind_ids(out.push(t), path_id(i), link(label_id, "text"@), c, used);
        },
        None => {
            lemma_more(out, c, keep, 'e', i, drawn(), "-text"@);
        },
    }
}

/// A path and its label take one number.
proof fn lemma_labelled_path_ids(
    out: Seq<ElementView>,
    i: int,
    label: Option<Seq<char>>,
    c: Counts,
    keep: Set<Seq<char>>,
)
    requires
        ids_ok(out, c, using(keep, 'e', i, drawn())),
        apart(keep),
        0 <= i,
        c.paths == i,
    ensures
        ids_ok(path_label(out, i, label), (Counts { paths: i + 1, ..c }), keep),
{
    lemma_path_label_ids(out, i, label, c, keep);
    lemma_done(
        path_label(out, i, label),
        c,
        keep,
        'e',
        i,
        drawn().insert("-text"@),
        Counts { paths: i + 1, ..c },
    );
}

proof fn lemma_containers_ids<RV>(cs: Seq<ContainerLayoutView<RV>>, n: int)
    requires
        0 <= n,
    ensures
        ids_ok(
            containers(cs, n),
            (Counts { boxes: 0, paths: 0, containers: n }),
            Set::empty(),
        ),
    decreases n,
{
    if n > 0 {
        lemma_containers_ids(cs, n - 1);
        reveal_strlit("-label");
        let i = n - 1;
        let c = Counts { boxes: 0, paths: 0, containers: i };
        let d = Counts { containers: n, ..c };
        let keep = Set::<Seq<char>>::empty();
        let out = containers(cs, i);
        let id = "c"@ + decimal(i);
        let frame = ElementView {
            stroke_style: "dashed"@,
            ..rect(id, Place::Container(i as usize), None)
        };
        lemma_names(i);
        assert(is_tail("-label"@) && "-label"@.len() == 6);
        assert(tagged(box_id(i) + "-label"@, 'n', i, "-label"@));
        lemma_start(out, c, keep, 'c', i, Set::empty());
        lemma_step(out, frame, c, keep, 'c', i, Set::empty(), Seq::empty());
        match cs[i].label {
            Some(l) => {
                let t = text_aligned(
                    id + "-label"@,
                    None,
                    l,
                    Place::ContainerLabel(i as usize),
                    "left"@,
                    "top"@,
                );
                lemma_step(out.push(frame), t, c, keep, 'c', i, drawn(), "-label"@);
                lemma_done(
                    out.push(frame).push(t),
                    c,
                    keep,
                    'c',
                    i,
                    drawn().insert("-label"@),
                    d,
                );
            },
            None => {
                lemma_done(out.push(frame), c, keep, 'c', i, drawn(), d);
            },
        }
    }
}

proof fn lemma_nodes_ids<RV>(
    out: Seq<ElementView>,
    ns: Seq<NodeLayoutView<RV>>,
    n: int,
    c: Counts,
)
    requires
        0 <= n,
        c.boxes == 0,
        ids_ok(out, c, Set::empty()),
    ensures
        ids_ok(nodes(out, ns, n), (Counts { boxes: n, ..c }), Set::empty()),
    decreases n,
{
    if n > 0 {
        lemma_nodes_ids(out, ns, n - 1, c);
        let node = ns[n - 1];
        let shape = ElementView {
            kind: node_shape(node.kind),
            ..rect(box_id(n - 1), Place::Box((n - 1) as usize), node_roundness(node.kind))
        };
        lemma_labelled_box_ids(
            nodes(out, ns, n - 1),
            n - 1,
            shape,
            node.label,
            Counts { boxes: n - 1, ..c },
            Set::empty(),
        );
    }
}

proof fn lemma_edges_ids<RV, CV>(
    out: Seq<ElementView>,
    g: GraphLayoutView<RV, CV>,
    i: int,
    c: Counts,
)
    requires
        0 <= i,
        c.paths == i,
        ids_ok(out, c, Set::empty()),
    ensures
        edges(out, g, i) matches Ok(scene) ==> distinct_keys(scene),
    decreases g.edges.len() - i,
{
    if i < g.edges.len() {
        let e = g.edges[i];
        if let Some(source) = key_index(g.nodes, e.from) {
            if let Some(target) = key_index(g.nodes, e.to) {
                let width: u8 = if e.weight == LineWeight::Thick {
                    2
                } else {
                    1
                };
                lemma_bound_path_ids(
                    out,
                    i,
                    box_id(source),
                    box_id(target),
                    edge_heads(e),
                    edge_style(e.line),
                    width,
                    c,
                    Set::empty(),
                );
                let a = bound_path(
                    out,
                    i,
                    box_id(source),
                    box_id(target),
                    edge_heads(e),
                    edge_style(e.line),
                    width,
                );
                lemma_labelled_path_ids(a, i, e.label, c, Set::empty());
                lemma_edges_ids(
                    edge(out, i, source, target, e),
                    g,
                    i + 1,
                    Counts { paths: i + 1, ..c },
                );
            }
        }
    }
}

/// No two elements of the scene of a graph have the same id.
pub proof fn law_graph_ids<RV, CV>(g: GraphLayoutView<RV, CV>)
    ensures
        graph_scene(g) matches Ok(scene) ==> distinct_keys(scene),
{
    let m = g.containers.len() as int;
    let n = g.nodes.len() as int;
    let a = containers(g.containers, m);
    lemma_containers_ids(g.containers, m);
    lemma_nodes_ids(a, g.nodes, n, Counts { boxes: 0, paths: 0, containers: m });
    lemma_edges_ids(
        nodes(a, g.nodes, n),
        g,
        0,
        Counts { boxes: n, paths: 0, containers: m },
    );
}

// ---------------------------------------------------------------------------
// State machines
// ---------------------------------------------------------------------------

/// The ids of the pseudostates.
pub open spec fn pseudo_ids() -> Set<Seq<char>> {
    Set::empty().insert("initial"@).insert("final-outer"@).insert("final-inner"@)
}

proof fn lemma_pseudo_ids()
    ensures
        apart(pseudo_ids()),
        "initial"@ != "final-outer"@,
        "initial"@ != "final-inner"@,
        "final-outer"@ != "final-inner"@,
        "initial"@[0] == 'i',
        "final-outer"@[0] == 'f',
        "final-inner"@[0] == 'f',
{
    reveal_strlit("initial");
    reveal_strlit("final-outer");
    reveal_strlit("final-inner");
    assert("initial"@[0] == 'i' && "final-outer"@[0] == 'f' && "final-inner"@[0] == 'f');
    assert("final-outer"@[6] == 'o' && "final-inner"@[6] == 'i');
    assert forall|id: Seq<char>, h: char, k: int, s: Seq<char>|
        (h == 'n' || h == 'e' || h == 'c') && #[trigger] tagged(
            id,
            h,
            k,
            s,
        ) implies !pseudo_ids().contains(id) by {
        assert(id[0] == h);
    }
}

/// An id that begins with no letter of a numbered one was not given out, unless
/// it is one of `used`.
proof fn lemma_other(id: Seq<char>, c: Counts, used: Set<Seq<char>>)
    requires
        id[0] != 'n',
        id[0] != 'e',
        id[0] != 'c',
        !used.contains(id),
    ensures
        !given(id, c, used),
{
    assert forall|h: char, k: int, s: Seq<char>| #[trigger] tagged(id, h, k, s) implies id[0]
        == h by {}
}

proof fn lemma_states_ids<RV>(ss: Seq<StateBoxView<RV>>, n: int)
    requires
        0 <= n,
    ensures
        ids_ok(states(ss, n), (Counts { boxes: n, paths: 0, containers: 0 }), Set::empty()),
    decreases n,
{
    if n > 0 {
        lemma_states_ids(ss, n - 1);
        lemma_labelled_box_ids(
            states(ss, n - 1),
            n - 1,
            rect(box_id(n - 1), Place::Box((n - 1) as usize), Some(3u8)),
            ss[n - 1].label,
            Counts { boxes: n - 1, paths: 0, containers: 0 },
            Set::empty(),
        );
    }
}

proof fn lemma_pseudostates_ids<RV, CV>(
    out: Seq<ElementView>,
    s: StateLayoutView<RV, CV>,
    c: Counts,
)
    requires
        ids_ok(out, c, Set::empty()),
    ensures
        ids_ok(pseudostates(out, s), c, pseudo_ids()),
{
    lemma_pseudo_ids();
    let none = Set::<Seq<char>>::empty();
    let i = ellipse("initial"@, Place::Initial, true);
    let o = ellipse("final-outer"@, Place::FinalOuter, false);
    let d = ellipse("final-inner"@, Place::FinalInner, true);
    let (a, used) = match s.initial {
        Some(_) => (out.push(i), none.insert("initial"@)),
        None => (out, none),
    };
    if s.initial is Some {
        lemma_other("initial"@, c, none);
        lemma_give(out, i, c, none);
    }
    match s.final_state {
        Some(_) => {
            lemma_other("final-outer"@, c, used);
            lemma_give(a, o, c, used);
            lemma_other("final-inner"@, c, used.insert("final-outer"@));
            lemma_give(a.push(o), d, c, used.insert("final-outer"@));
            lemma_count(
                a.push(o).push(d),
                c,
                used.insert("final-outer"@).insert("final-inner"@),
                c,
                pseudo_ids(),
            );
        },
        None => {
            lemma_count(a, c, used, c, pseudo_ids());
        },
    }
}

proof fn lemma_transitions_ids<RV, CV>(
    out: Seq<ElementView>,
    s: StateLayoutView<RV, CV>,
    i: int,
    c: Counts,
)
    requires
        0 <= i,
        c.paths == i,
        ids_ok(out, c, pseudo_ids()),
    ensures
        transitions(out, s, i) matches Ok(scene) ==> distinct_keys(scene),
    decreases s.transitions.len() - i,
{
    lemma_pseudo_ids();
    if i < s.transitions.len() {
        let t = s.transitions[i];
        if let Ok(source) = endpoint_id(s, t.from) {
            if let Ok(target) = endpoint_id(s, t.to) {
                let heads = (None, Some("triangle"@));
                let a = bound_path(out, i, source, target, heads, "solid"@, 1);
                lemma_bound_path_ids(
                    out,
                    i,
                    source,
                    target,
                    heads,
                    "solid"@,
                    1,
                    c,
                    pseudo_ids(),
                );
                lemma_labelled_path_ids(a, i, t.label, c, pseudo_ids());
                lemma_transitions_ids(
                    path_label(a, i, t.label),
                    s,
                    i + 1,
                    Counts { paths: i + 1, ..c },
                );
            }
        }
    }
}

/// No two elements of the scene of a state machine have the same id.
pub proof fn law_state_ids<RV, CV>(s: StateLayoutView<RV, CV>)
    ensures
        state_scene(s) matches Ok(scene) ==> distinct_keys(scene),
{
    let n = s.states.len() as int;
    let c = Counts { boxes: n, paths: 0, containers: 0 };
    lemma_states_ids(s.states, n);
    lemma_pseudostates_ids(states(s.states, n), s, c);
    lemma_transitions_ids(pseudostates(states(s.states, n), s), s, 0, c);
}

// ---------------------------------------------------------------------------
// Sequences
// ---------------------------------------------------------------------------

proof fn lemma_participants_ids<HV>(ps: Seq<ParticipantLayoutView<HV>>, n: int)
    requires
        0 <= n,
    ensures
        ids_ok(
            participants(ps, n),
            (Counts { boxes: n, paths: 0, containers: 0 }),
            Set::empty(),
        ),
    decreases n,
{
    if n > 0 {
        lemma_participants_ids(ps, n - 1);
        reveal_strlit("-text");
        reveal_strlit("-stereotype");
        reveal_strlit("-lifeline");
        assert("-text"@.len() == 5 && "-stereotype"@.len() == 11 && "-lifeline"@.len() == 9);
        assert(is_tail("-text"@) && is_tail("-stereotype"@) && is_tail("-lifeline"@));
        let out = participants(ps, n - 1);
        let i = n - 1;
        let p = ps[i];
        let id = box_id(i);
        let c = Counts { boxes: i, paths: 0, containers: 0 };
        let keep = Set::<Seq<char>>::empty();
        let label_id = id + "-text"@;
        let group = seq!["participant-"@ + decimal(i)];
        lemma_names(i);
        assert(tagged(id + "-text"@, 'n', i, "-text"@));
        assert(tagged(id + "-stereotype"@, 'n', i, "-stereotype"@));
        assert(tagged(id + "-lifeline"@, 'n', i, "-lifeline"@));
        let head = ElementView {
            group_ids: group,
            bound_elements: Some(seq![link(label_id, "text"@)]),
            ..rect(id, Place::Box(i as usize), Some(3u8))
        };
        let a = out.push(head);
        lemma_start(out, c, keep, 'n', i, Set::empty());
        lemma_step(out, head, c, keep, 'n', i, Set::empty(), Seq::empty());
        let tails = drawn().insert("-stereotype"@);
        let b = match stereotype(p.kind) {
            Some(st) => a.push(
                text(id + "-stereotype"@, None, st, Place::Stereotype(i as usize)),
            ),
            None => a,
        };
        match stereotype(p.kind) {
            Some(st) => {
                lemma_step(
                    a,
                    text(id + "-stereotype"@, None, st, Place::Stereotype(i as usize)),
                    c,
                    keep,
                    'n',
                    i,
                    drawn(),
                    "-stereotype"@,
                );
            },
            None => {
                lemma_more(a, c, keep, 'n', i, drawn(), "-stereotype"@);
            },
        }
        let t = text(label_id, Some(id), p.label, Place::BoxLabel(i as usize));
        let l = ElementView {
            group_ids: group,
            ..line(id + "-lifeline"@, Place::Lifeline(i as usize), true)
        };
        lemma_step(b, t, c, keep, 'n', i, tails, "-text"@);
        lemma_step(b.push(t), l, c, keep, 'n', i, tails.insert("-text"@), "-lifeline"@);
        lemma_done(
            b.push(t).push(l),
            c,
            keep,
            'n',
            i,
            tails.insert("-text"@).insert("-lifeline"@),
            Counts { boxes: n, ..c },
        );
    }
}

proof fn lemma_messages_ids<HV, MV>(
    out: Seq<ElementView>,
    s: SequenceLayoutView<HV, MV>,
    i: int,
    c: Counts,
)
    requires
        0 <= i,
        c.paths == i,
        ids_ok(out, c, Set::empty()),
    ensures
        messages(out, s, i) matches Ok(scene) ==> distinct_keys(scene),
    decreases s.messages.len() - i,
{
    if i < s.messages.len() {
        let m = s.messages[i];
        let keep = Set::<Seq<char>>::empty();
        let e = arrow(
            path_id(i),
            Place::Path(i as usize),
            ArrowExtraView {
                start_binding: None,
                end_binding: None,
                start_arrowhead: None,
                end_arrowhead: if m.arrow == ArrowType::Plain {
                    None
                } else {
                    Some("triangle"@)
                },
            },
            if m.line == LineStyle::Dashed {
                "dashed"@
            } else {
                "solid"@
            },
            1,
        );
        lemma_names(i);
        lemma_start(out, c, keep, 'e', i, Set::empty());
        lemma_step(out, e, c, keep, 'e', i, Set::empty(), Seq::empty());
        lemma_labelled_path_ids(out.push(e), i, m.label, c, keep);
        lemma_messages_ids(message(out, i, m), s, i + 1, Counts { paths: i + 1, ..c });
    }
}

/// No two elements of the scene of a sequence have the same id.
pub proof fn law_sequence_ids<HV, MV>(s: SequenceLayoutView<HV, MV>)
    ensures
        sequence_scene(s) matches Ok(scene) ==> distinct_keys(scene),
{
    let n = s.participants.len() as int;
    lemma_participants_ids(s.participants, n);
    lemma_messages_ids(
        participants(s.participants, n),
        s,
        0,
        Counts { boxes: n, paths: 0, containers: 0 },
    );
}

// ---------------------------------------------------------------------------
// Classes and entities
// ---------------------------------------------------------------------------

/// The tails of a box with a title and `n` compartments.
pub open spec fn box_tails(n: int) -> Set<Seq<char>>
    decreases n,
{
    if n <= 0 {
        drawn().insert("-title"@)
    } else {
        box_tails(n - 1).insert("-div"@ + decimal(n - 1)).insert("-sect"@ + decimal(n - 1))
    }
}

/// A tail of a box is empty, that of the title, or that of a compartment.
proof fn lemma_box_tails(n: int, s: Seq<char>)
    requires
        0 <= n,
        box_tails(n).contains(s),
    ensures
        s.len() == 0 || s == "-title"@ || exists|k: int|
            0 <= k < n && (s == "-div"@ + #[trigger] decimal(k) || s == "-sect"@ + decimal(k)),
    decreases n,
{
    if n > 0 {
        if s == "-div"@ + decimal(n - 1) || s == "-sect"@ + decimal(n - 1) {
        } else {
            lemma_box_tails(n - 1, s);
            if s.len() != 0 && s != "-title"@ {
                let k = choose|k: int|
                    0 <= k < n - 1 && (s == "-div"@ + #[trigger] decimal(k) || s == "-sect"@
                        + decimal(k));
                assert(0 <= k < n && (s == "-div"@ + decimal(k) || s == "-sect"@ + decimal(k)));
            }
        }
    }
}

/// The tails of the next compartment are new.
proof fn lemma_new_tails(n: int)
    requires
        0 <= n,
    ensures
        !box_tails(n).contains("-div"@ + decimal(n)),
        !box_tails(n).contains("-sect"@ + decimal(n)),
        "-div"@ + decimal(n) != "-sect"@ + decimal(n),
        is_tail("-div"@ + decimal(n)),
        is_tail("-sect"@ + decimal(n)),
{
    reveal_strlit("-div");
    reveal_strlit("-sect");
    reveal_strlit("-title");
    let a = "-div"@ + decimal(n);
    let b = "-sect"@ + decimal(n);
    assert("-div"@.len() == 4 && "-div"@[0] == '-' && "-div"@[1] == 'd');
    assert("-sect"@.len() == 5 && "-sect"@[0] == '-' && "-sect"@[1] == 's');
    assert("-title"@.len() == 6 && "-title"@[1] == 't');
    assert(a[0] == '-' && a[1] == 'd' && b[0] == '-' && b[1] == 's');
    if box_tails(n).contains(a) {
        lemma_box_tails(n, a);
        let k = choose|k: int|
            0 <= k < n && (a == "-div"@ + #[trigger] decimal(k) || a == "-sect"@ + decimal(k));
        let other = "-sect"@ + decimal(k);
        assert(other[1] == 's');
        assert(a == "-div"@ + decimal(k));
        assert(a.skip(4) =~= decimal(n));
        assert(("-div"@ + decimal(k)).skip(4) =~= decimal(k));
        lemma_decimal_injective(k, n);
    }
    if box_tails(n).contains(b) {
        lemma_box_tails(n, b);
        let k = choose|k: int|
            0 <= k < n && (b == "-div"@ + #[trigger] decimal(k) || b == "-sect"@ + decimal(k));
        let other = "-div"@ + decimal(k);
        assert(other[1] == 'd');
        assert(b == "-sect"@ + decimal(k));
        assert(b.skip(5) =~= decimal(n));
        assert(("-sect"@ + decimal(k)).skip(5) =~= decimal(k));
        lemma_decimal_injective(k, n);
    }
}

proof fn lemma_sections_ids(
    out: Seq<ElementView>,
    i: int,
    cs: Seq<CompartmentView>,
    n: int,
    c: Counts,
)
    requires
        0 <= n,
        0 <= i,
        c.boxes == i,
        ids_ok(out, c, using(Set::empty(), 'n', i, box_tails(0))),
    ensures
        ids_ok(sections(out, i, cs, n), c, using(Set::empty(), 'n', i, box_tails(n))),
    decreases n,
{
    if n > 0 {
        lemma_sections_ids(out, i, cs, n - 1, c);
        let keep = Set::<Seq<char>>::empty();
        let k = n - 1;
        let a = sections(out, i, cs, k);
        let d = line(
            box_id(i) + "-div"@ + decimal(k),
            Place::Divider(i as usize, k as usize),
            false,
        );
        let t = text_aligned(
            box_id(i) + "-sect"@ + decimal(k),
            None,
            joined(cs[k].rows, "\n"@),
            Place::Section(i as usize, k as usize),
            "left"@,
            "top"@,
        );
        lemma_names(i);
        lemma_new_tails(k);
        assert(box_id(i) + "-div"@ + decimal(k) =~= box_id(i) + ("-div"@ + decimal(k)));
        assert(box_id(i) + "-sect"@ + decimal(k) =~= box_id(i) + ("-sect"@ + decimal(k)));
        assert(tagged(
            box_id(i) + ("-div"@ + decimal(k)),
            'n',
            i,
            "-div"@ + decimal(k),
        ));
        assert(tagged(
            box_id(i) + ("-sect"@ + decimal(k)),
            'n',
            i,
            "-sect"@ + decimal(k),
        ));
        lemma_step(a, d, c, keep, 'n', i, box_tails(k), "-div"@ + decimal(k));
        lemma_step(
            a.push(d),
            t,
            c,
            keep,
            'n',
            i,
            box_tails(k).insert("-div"@ + decimal(k)),
            "-sect"@ + decimal(k),
        );
    }
}

proof fn lemma_class_boxes_ids<RV>(bs: Seq<CompartmentBoxView<RV>>, n: int)
    requires
        0 <= n,
    ensures
        ids_ok(
            class_boxes(bs, n),
            (Counts { boxes: n, paths: 0, containers: 0 }),
            Set::empty(),
        ),
    decreases n,
{
    if n > 0 {
        lemma_class_boxes_ids(bs, n - 1);
        reveal_strlit("-title");
        assert(is_tail("-title"@) && "-title"@.len() == 6);
        let i = n - 1;
        let c = Counts { boxes: i, paths: 0, containers: 0 };
        let keep = Set::<Seq<char>>::empty();
        let out = class_boxes(bs, i);
        let b = bs[i];
        let frame = rect(box_id(i), Place::Box(i as usize), Some(3u8));
        let head = text(box_id(i) + "-title"@, None, title(b), Place::Title(i as usize));
        lemma_names(i);
        assert(tagged(box_id(i) + "-title"@, 'n', i, "-title"@));
        lemma_start(out, c, keep, 'n', i, Set::empty());
        lemma_step(out, frame, c, keep, 'n', i, Set::empty(), Seq::empty());
        lemma_step(out.push(frame), head, c, keep, 'n', i, drawn(), "-title"@);
        let k = b.compartments.len() as int;
        lemma_sections_ids(out.push(frame).push(head), i, b.compartments, k, c);
        lemma_done(
            class_boxes(bs, n),
            c,
            keep,
            'n',
            i,
            box_tails(k),
            Counts { boxes: n, ..c },
        );
    }
}

proof fn lemma_multiplicity_ids(
    out: Seq<ElementView>,
    i: int,
    mult: Option<Seq<char>>,
    suffix: Seq<char>,
    place: Place,
    c: Counts,
    tails: Set<Seq<char>>,
)
    requires
        0 <= i,
        c.paths == i,
        is_tail(suffix),
        !tails.contains(suffix),
        ids_ok(out, c, using(Set::empty(), 'e', i, tails)),
    ensures
        ids_ok(
            multiplicity(out, i, mult, suffix, place),
            c,
            using(Set::empty(), 'e', i, tails.insert(suffix)),
        ),
{
    lemma_names(i);
    assert(tagged(box_id(i) + suffix, 'n', i, suffix));
    match mult {
        Some(m) => {
            lemma_step(
                out,
                text(path_id(i) + suffix, None, m, place),
                c,
                Set::empty(),
                'e',
                i,
                tails,
                suffix,
            );
        },
        None => {
            lemma_more(out, c, Set::empty(), 'e', i, tails, suffix);
        },
    }
}

proof fn lemma_relations_ids<RV, CV>(
    out: Seq<ElementView>,
    l: ClassLayoutView<RV, CV>,
    i: int,
    c: Counts,
)
    requires
        0 <= i,
        c.paths == i,
        ids_ok(out, c, Set::empty()),
    ensures
        relations(out, l, i) matches Ok(scene) ==> distinct_keys(scene),
    decreases l.relations.len() - i,
{
    if i < l.relations.len() {
        let r = l.relations[i];
        if let Some(source) = key_index(l.boxes, r.from) {
            if let Some(target) = key_index(l.boxes, r.to) {
                reveal_strlit("-text");
                reveal_strlit("-mult-from");
                reveal_strlit("-mult-to");
                assert("-text"@.len() == 5 && "-mult-from"@.len() == 10 && "-mult-to"@.len() == 8);
                assert(is_tail("-mult-from"@) && is_tail("-mult-to"@));
                let keep = Set::<Seq<char>>::empty();
                let heads = (arrowhead(r.from_marker), arrowhead(r.to_marker));
                let style = if r.line == LineStyle::Dashed {
                    "dashed"@
                } else {
                    "solid"@
                };
                let a = bound_path(out, i, box_id(source), box_id(target), heads, style, 1);
                let b = path_label(a, i, r.label);
                let d = multiplicity(
                    b,
                    i,
                    r.from_mult,
                    "-mult-from"@,
                    Place::PathStart(i as usize),
                );
                let e = relation(out, i, source, target, r);
                let tails = drawn().insert("-text"@);
                lemma_bound_path_ids(
                    out,
                    i,
                    box_id(source),
                    box_id(target),
                    heads,
                    style,
                    1,
                    c,
                    keep,
                );
                lemma_path_label_ids(a, i, r.label, c, keep);
                lemma_multiplicity_ids(
                    b,
                    i,
                    r.from_mult,
                    "-mult-from"@,
                    Place::PathStart(i as usize),
                    c,
                    tails,
                );
                lemma_multiplicity_ids(
                    d,
                    i,
                    r.to_mult,
                    "-mult-to"@,
                    Place::PathEnd(i as usize),
                    c,
                    tails.insert("-mult-from"@),
                );
                let next = Counts { paths: i + 1, ..c };
                lemma_done(
                    e,
                    c,
                    keep,
                    'e',
                    i,
                    tails.insert("-mult-from"@).insert("-mult-to"@),
                    next,
                );
                lemma_relations_ids(e, l, i + 1, next);
            }
        }
    }
}

/// No two elements of the scene of boxes have the same id.
pub proof fn law_class_ids<RV, CV>(l: ClassLayoutView<RV, CV>)
    ensures
        class_scene(l) matches Ok(scene) ==> distinct_keys(scene),
{
    let n = l.boxes.len() as int;
    lemma_class_boxes_ids(l.boxes, n);
    lemma_relations_ids(
        class_boxes(l.boxes, n),
        l,
        0,
        Counts { boxes: n, paths: 0, containers: 0 },
    );
}

/// No two elements of an exported scene have the same id.
pub proof fn law_ids_are_distinct<RV, CV, HV, MV>(layout: SemanticLayoutView<RV, CV, HV, MV>)
    ensures
        exported(layout) matches Ok(state) ==> distinct_keys(state.elements),
{
    match layout {
        SemanticLayoutView::Graph(g) => {
            law_graph_ids(g);
        },
        SemanticLayoutView::State(s) => {
            law_state_ids(s);
        },
        SemanticLayoutView::Sequence(s) => {
            law_sequence_ids(s);
        },
        SemanticLayoutView::Class(c) => {
            law_class_ids(c);
        },
        SemanticLayoutView::Er(c) => {
            law_class_ids(c);
        },
    }
    if let Ok(scene) = layout_scene(layout) {
        let after = seeded(scene);
        assert forall|i: int, j: int| 0 <= i < j < after.len() implies after[i].key()
            != after[j].key() by {
            assert(scene[i].key() != scene[j].key());
        }
    }
}

} // verus!
