//! The elements of an Excalidraw scene.
use crate::ir::{key_from, key_index, lemma_key_from, position, Container, Identified, Named};
use crate::text::{lemma_views_push, lemma_views_update, opt_view, same_str, same_string, views};
use vstd::prelude::*;

verus! {

/// Where an element lies. The indices are those of the layout's lists; a box is
/// a node, a state, a participant's header or a class, and a path is an edge, a
/// transition, a message or a relation.
#[derive(Debug, Clone, Copy, PartialEq, Eq, Structural)]
pub enum Place {
    /// On a container.
    Container(usize),
    /// In the upper left corner of a container.
    ContainerLabel(usize),
    /// On a box.
    Box(usize),
    /// In the middle of a box.
    BoxLabel(usize),
    /// In the middle of the upper half of a box.
    Stereotype(usize),
    /// Along the lifeline below a header.
    Lifeline(usize),
    /// In a box, above its first compartment.
    Title(usize),
    /// Along the upper side of a compartment of a box.
    Divider(usize, usize),
    /// In a compartment of a box.
    Section(usize, usize),
    /// On the initial pseudostate.
    Initial,
    /// On the ring of the final pseudostate.
    FinalOuter,
    /// On the dot of the final pseudostate.
    FinalInner,
    /// Along a path.
    Path(usize),
    /// At the label of a path.
    PathLabel(usize),
    /// Beside the start of a path.
    PathStart(usize),
    /// Beside the end of a path.
    PathEnd(usize),
}

/// A link from an element to one that is bound to it.
#[derive(Debug, Clone, PartialEq, Eq)]
pub struct BoundElementRef {
    /// The id of the bound element.
    pub id: String,
    /// Its kind: `text` or `arrow`.
    pub kind: &'static str,
}

/// The model of [`BoundElementRef`].
#[verifier::ext_equal]
pub struct BoundElementRefView {
    pub id: Seq<char>,
    pub kind: Seq<char>,
}

impl View for BoundElementRef {
    type V = BoundElementRefView;

    open spec fn view(&self) -> BoundElementRefView {
        BoundElementRefView { id: self.id@, kind: self.kind@ }
    }
}

/// What only a text has.
#[derive(Debug, Clone, PartialEq, Eq)]
pub struct TextExtra {
    /// The id of the element that the text is bound to.
    pub container_id: Option<String>,
    /// The text.
    pub text: String,
    /// The text before it was wrapped.
    pub original_text: String,
    /// The number of the font.
    pub font_family: u8,
    /// How lines are aligned.
    pub text_align: &'static str,
    /// Where in its box the text stands.
    pub vertical_align: &'static str,
}

/// The model of [`TextExtra`].
#[verifier::ext_equal]
pub struct TextExtraView {
    pub container_id: Option<Seq<char>>,
    pub text: Seq<char>,
    pub original_text: Seq<char>,
    pub font_family: u8,
    pub text_align: Seq<char>,
    pub vertical_align: Seq<char>,
}

impl View for TextExtra {
    type V = TextExtraView;

    open spec fn view(&self) -> TextExtraView {
        TextExtraView {
            container_id: opt_view(self.container_id),
            text: self.text@,
            original_text: self.original_text@,
            font_family: self.font_family,
            text_align: self.text_align@,
            vertical_align: self.vertical_align@,
        }
    }
}

/// What only an arrow has.
#[derive(Debug, Clone, PartialEq, Eq)]
pub struct ArrowExtra {
    /// The id of the element at the start.
    pub start_binding: Option<String>,
    /// The id of the element at the end.
    pub end_binding: Option<String>,
    /// The head at the start.
    pub start_arrowhead: Option<&'static str>,
    /// The head at the end.
    pub end_arrowhead: Option<&'static str>,
}

/// The model of [`ArrowExtra`].
#[verifier::ext_equal]
pub struct ArrowExtraView {
    pub start_binding: Option<Seq<char>>,
    pub end_binding: Option<Seq<char>>,
    pub start_arrowhead: Option<Seq<char>>,
    pub end_arrowhead: Option<Seq<char>>,
}

impl View for ArrowExtra {
    type V = ArrowExtraView;

    open spec fn view(&self) -> ArrowExtraView {
        ArrowExtraView {
            start_binding: opt_view(self.start_binding),
            end_binding: opt_view(self.end_binding),
            start_arrowhead: opt_view(self.start_arrowhead),
            end_arrowhead: opt_view(self.end_arrowhead),
        }
    }
}

/// What only elements of one kind have.
#[derive(Debug, Clone, PartialEq, Eq)]
pub enum Extra {
    /// A rectangle, an ellipse or a diamond has nothing more.
    Shape,
    /// What a text has.
    Text(TextExtra),
    /// What an arrow has.
    Arrow(ArrowExtra),
    /// A line has nothing more.
    Line,
}

/// The model of [`Extra`].
#[verifier::ext_equal]
pub enum ExtraView {
    Shape,
    Text(TextExtraView),
    Arrow(ArrowExtraView),
    Line,
}

impl View for Extra {
    type V = ExtraView;

    open spec fn view(&self) -> ExtraView {
        match self {
            Extra::Shape => ExtraView::Shape,
            Extra::Text(t) => ExtraView::Text(t@),
            Extra::Arrow(a) => ExtraView::Arrow(a@),
            Extra::Line => ExtraView::Line,
        }
    }
}

/// An element of a scene.
#[derive(Debug, Clone, PartialEq, Eq)]
pub struct Element {
    /// Its id.
    pub id: String,
    /// Its kind: `rectangle`, `ellipse`, `diamond`, `text`, `arrow` or `line`.
    pub kind: &'static str,
    /// Where it lies.
    pub place: Place,
    /// The color of its lines.
    pub stroke_color: &'static str,
    /// The color of its inside.
    pub background_color: &'static str,
    /// How its inside is filled.
    pub fill_style: &'static str,
    /// How heavy its lines are.
    pub stroke_width: u8,
    /// How its lines are drawn.
    pub stroke_style: &'static str,
    /// How sketchy it looks.
    pub roughness: u8,
    /// How opaque it is, in percent.
    pub opacity: u8,
    /// The groups it belongs to.
    pub group_ids: Vec<String>,
    /// How its corners are rounded.
    pub roundness: Option<u8>,
    /// What its sketchy look is drawn from.
    pub seed: u64,
    /// How often it was changed.
    pub version: u32,
    /// Whether it was deleted.
    pub is_deleted: bool,
    /// The elements that are bound to it.
    pub bound_elements: Option<Vec<BoundElementRef>>,
    /// Whether it is locked.
    pub locked: bool,
    /// What only elements of its kind have.
    pub extra: Extra,
}

/// The model of [`Element`].
#[verifier::ext_equal]
pub struct ElementView {
    pub id: Seq<char>,
    pub kind: Seq<char>,
    pub place: Place,
    pub stroke_color: Seq<char>,
    pub background_color: Seq<char>,
    pub fill_style: Seq<char>,
    pub stroke_width: u8,
    pub stroke_style: Seq<char>,
    pub roughness: u8,
    pub opacity: u8,
    pub group_ids: Seq<Seq<char>>,
    pub roundness: Option<u8>,
    pub seed: int,
    pub version: u32,
    pub is_deleted: bool,
    pub bound_elements: Option<Seq<BoundElementRefView>>,
    pub locked: bool,
    pub extra: ExtraView,
}

/// The model of the elements that are bound to one.
pub open spec fn bound_view(b: Option<Vec<BoundElementRef>>) -> Option<Seq<BoundElementRefView>> {
    match b {
        Some(v) => Some(views(v@)),
        None => None,
    }
}

impl View for Element {
    type V = ElementView;

    open spec fn view(&self) -> ElementView {
        ElementView {
            id: self.id@,
            kind: self.kind@,
            place: self.place,
            stroke_color: self.stroke_color@,
            background_color: self.background_color@,
            fill_style: self.fill_style@,
            stroke_width: self.stroke_width,
            stroke_style: self.stroke_style@,
            roughness: self.roughness,
            opacity: self.opacity,
            group_ids: views(self.group_ids@),
            roundness: self.roundness,
            seed: self.seed as int,
            version: self.version,
            is_deleted: self.is_deleted,
            bound_elements: bound_view(self.bound_elements),
            locked: self.locked,
            extra: self.extra@,
        }
    }
}

impl Named for ElementView {
    open spec fn key(self) -> Seq<char> {
        self.id
    }
}

impl Identified for Element {
    fn id(&self) -> (r: &String) {
        &self.id
    }
}

// ---------------------------------------------------------------------------
// Making elements
// ---------------------------------------------------------------------------

/// An element with nothing bound to it and without a seed.
pub open spec fn plain(id: Seq<char>, kind: Seq<char>, place: Place, extra: ExtraView) -> ElementView {
    ElementView {
        id,
        kind,
        place,
        stroke_color: "#1e1e1e"@,
        background_color: "transparent"@,
        fill_style: "hachure"@,
        stroke_width: 1,
        stroke_style: "solid"@,
        roughness: 1,
        opacity: 100,
        group_ids: Seq::empty(),
        roundness: None,
        seed: 0,
        version: 1,
        is_deleted: false,
        bound_elements: None,
        locked: false,
        extra,
    }
}

/// A rectangle.
pub open spec fn rect(id: Seq<char>, place: Place, roundness: Option<u8>) -> ElementView {
    ElementView { roundness, ..plain(id, "rectangle"@, place, ExtraView::Shape) }
}

/// The ellipse of a pseudostate: a black dot, or a ring.
pub open spec fn ellipse(id: Seq<char>, place: Place, filled: bool) -> ElementView {
    let e = plain(id, "ellipse"@, place, ExtraView::Shape);
    if filled {
        ElementView { background_color: "#1e1e1e"@, fill_style: "solid"@, ..e }
    } else {
        e
    }
}

/// A text.
pub open spec fn text_aligned(
    id: Seq<char>,
    container: Option<Seq<char>>,
    text: Seq<char>,
    place: Place,
    across: Seq<char>,
    down: Seq<char>,
) -> ElementView {
    plain(
        id,
        "text"@,
        place,
        ExtraView::Text(
            TextExtraView {
                container_id: container,
                text,
                original_text: text,
                font_family: 1,
                text_align: across,
                vertical_align: down,
            },
        ),
    )
}

/// A centred text.
pub open spec fn text(
    id: Seq<char>,
    container: Option<Seq<char>>,
    text: Seq<char>,
    place: Place,
) -> ElementView {
    text_aligned(id, container, text, place, "center"@, "middle"@)
}

/// A line.
pub open spec fn line(id: Seq<char>, place: Place, dashed: bool) -> ElementView {
    ElementView {
        stroke_style: if dashed {
            "dashed"@
        } else {
            "solid"@
        },
        ..plain(id, "line"@, place, ExtraView::Line)
    }
}

/// An arrow.
pub open spec fn arrow(
    id: Seq<char>,
    place: Place,
    extra: ArrowExtraView,
    style: Seq<char>,
    width: u8,
) -> ElementView {
    ElementView {
        stroke_style: style,
        stroke_width: width,
        ..plain(id, "arrow"@, place, ExtraView::Arrow(extra))
    }
}

/// An element with nothing bound to it and without a seed.
fn make_plain(id: String, kind: &'static str, place: Place, extra: Extra) -> (r: Element)
    ensures
        r@ == plain(id@, kind@, place, extra@),
{
    let r = Element {
        id,
        kind,
        place,
        stroke_color: "#1e1e1e",
        background_color: "transparent",
        fill_style: "hachure",
        stroke_width: 1,
        stroke_style: "solid",
        roughness: 1,
        opacity: 100,
        group_ids: Vec::new(),
        roundness: None,
        seed: 0,
        version: 1,
        is_deleted: false,
        bound_elements: None,
        locked: false,
        extra,
    };
    assert(r@.group_ids =~= Seq::<Seq<char>>::empty());
    r
}

/// A rectangle, with rounded corners where `roundness` says so.
pub fn make_rect_with_roundness(id: String, place: Place, roundness: Option<u8>) -> (r: Element)
    ensures
        r@ == rect(id@, place, roundness),
{
    let mut r = make_plain(id, "rectangle", place, Extra::Shape);
    r.roundness = roundness;
    r
}

/// A rectangle with rounded corners.
pub fn make_rect(id: String, place: Place) -> (r: Element)
    ensures
        r@ == rect(id@, place, Some(3u8)),
{
    make_rect_with_roundness(id, place, Some(3))
}

/// The ellipse of a pseudostate: a black dot, or a ring.
pub fn make_ellipse(id: &str, place: Place, filled: bool) -> (r: Element)
    ensures
        r@ == ellipse(id@, place, filled),
{
    let mut r = make_plain(String::from_str(id), "ellipse", place, Extra::Shape);
    if filled {
        r.background_color = "#1e1e1e";
        r.fill_style = "solid";
    }
    r
}

/// A text.
pub fn make_text_aligned(
    id: String,
    container_id: Option<String>,
    text: &str,
    place: Place,
    text_align: &'static str,
    vertical_align: &'static str,
) -> (r: Element)
    ensures
        r@ == text_aligned(
            id@,
            opt_view(container_id),
            text@,
            place,
            text_align@,
            vertical_align@,
        ),
{
    make_plain(
        id,
        "text",
        place,
        Extra::Text(
            TextExtra {
                container_id,
                text: String::from_str(text),
                original_text: String::from_str(text),
                font_family: 1,
                text_align,
                vertical_align,
            },
        ),
    )
}

/// A centred text.
pub fn make_text(id: String, container_id: Option<String>, label: &str, place: Place) -> (r: Element)
    ensures
        r@ == text(id@, opt_view(container_id), label@, place),
{
    make_text_aligned(id, container_id, label, place, "center", "middle")
}

/// A line.
pub fn make_line(id: String, place: Place, dashed: bool) -> (r: Element)
    ensures
        r@ == line(id@, place, dashed),
{
    let mut r = make_plain(id, "line", place, Extra::Line);
    if dashed {
        r.stroke_style = "dashed";
    }
    r
}

/// An arrow.
pub fn make_arrow(
    id: String,
    place: Place,
    extra: ArrowExtra,
    stroke_style: &'static str,
    stroke_width: u8,
) -> (r: Element)
    ensures
        r@ == arrow(id@, place, extra@, stroke_style@, stroke_width),
{
    let mut r = make_plain(id, "arrow", place, Extra::Arrow(extra));
    r.stroke_style = stroke_style;
    r.stroke_width = stroke_width;
    r
}

/// How many columns a text of one line is taken to have: one for each
/// character, but at least one.
pub open spec fn columns(label: Seq<char>) -> int {
    if label.len() == 0 {
        1
    } else {
        label.len() as int
    }
}

/// How many columns a text of one line is taken to have.
pub fn text_columns(label: &str) -> (r: usize)
    ensures
        r == columns(label@),
{
    let n: usize = label.unicode_len();
    if n == 0 {
        1
    } else {
        n
    }
}

// ---------------------------------------------------------------------------
// Links between elements
// ---------------------------------------------------------------------------

/// The element with `r` bound to it, once.
pub open spec fn with_bound(e: ElementView, r: BoundElementRefView) -> ElementView {
    ElementView {
        bound_elements: match e.bound_elements {
            Some(v) => if v.contains(r) {
                Some(v)
            } else {
                Some(v.push(r))
            },
            None => Some(seq![r]),
        },
        ..e
    }
}

/// The elements, with `r` bound to the first one that has the id `owner`.
pub open spec fn bind(elements: Seq<ElementView>, owner: Seq<char>, r: BoundElementRefView) -> Seq<
    ElementView,
> {
    match key_index(elements, owner) {
        Some(i) => elements.update(i, with_bound(elements[i], r)),
        None => elements,
    }
}

/// A link to the element `id`.
pub open spec fn link(id: Seq<char>, kind: Seq<char>) -> BoundElementRefView {
    BoundElementRefView { id, kind }
}

fn bound_contains(v: &Vec<BoundElementRef>, x: &BoundElementRef) -> (r: bool)
    ensures
        r == views(v@).contains(x@),
{
    let ghost all = views(v@);
    let mut i: usize = 0;
    while i < v.len()
        invariant
            i <= v@.len(),
            all == views(v@),
            forall|k: int| 0 <= k < i ==> all[k] != x@,
        decreases v@.len() - i,
    {
        assert(all[i as int] == v@[i as int]@);
        if same_string(&v[i].id, &x.id) && same_str(v[i].kind, x.kind) {
            assert(all[i as int] =~= x@);
            return true;
        }
        i = i + 1;
    }
    false
}

/// Binds `r` to the first element with the id `owner_id`, unless it is bound to
/// it already.
pub fn add_bound_element(elements: &mut Vec<Element>, owner_id: &String, r: BoundElementRef)
    ensures
        views(final(elements)@) == bind(views(old(elements)@), owner_id@, r@),
{
    broadcast use lemma_views_push;

    match position(elements.as_slice(), owner_id) {
        Some(i) => {
            let ghost before = elements@;
            let e = &mut elements[i];
            let old_bound = e.bound_elements.take();
            let bound = match old_bound {
                Some(v) => {
                    let mut v = v;
                    if !bound_contains(&v, &r) {
                        v.push(r);
                    }
                    v
                },
                None => {
                    let mut v: Vec<BoundElementRef> = Vec::new();
                    v.push(r);
                    assert(views(v@) =~= seq![r@]);
                    v
                },
            };
            e.bound_elements = Some(bound);
            proof {
                lemma_views_update(before, i as int, elements@[i as int]);
                assert(elements@ =~= before.update(i as int, elements@[i as int]));
            }
        },
        None => {},
    }
}

/// Binding an element twice is binding it once.
pub proof fn law_bound_once(elements: Seq<ElementView>, owner: Seq<char>, r: BoundElementRefView)
    ensures
        bind(bind(elements, owner, r), owner, r) == bind(elements, owner, r),
{
    lemma_key_from(elements, owner, 0);
    match key_index(elements, owner) {
        Some(i) => {
            let e = with_bound(elements[i], r);
            let once = elements.update(i, e);
            assert(e.bound_elements->0.contains(r)) by {
                match elements[i].bound_elements {
                    Some(v) => if !v.contains(r) {
                        assert(v.push(r)[v.len() as int] == r);
                    },
                    None => {
                        assert(seq![r][0] == r);
                    },
                }
            }
            lemma_key_stays(elements, owner, 0, i, e);
            assert(with_bound(e, r) =~= e);
            assert(once.update(i, e) =~= once);
        },
        None => {},
    }
}

/// Replacing an item by one with the same id leaves every id where it was.
pub proof fn lemma_key_stays<M: Named>(s: Seq<M>, id: Seq<char>, from: int, i: int, x: M)
    requires
        0 <= from <= s.len(),
        0 <= i < s.len(),
        x.key() == s[i].key(),
    ensures
        key_from(s.update(i, x), id, from) == key_from(s, id, from),
    decreases s.len() - from,
{
    if from < s.len() && s[from].key() != id {
        lemma_key_stays(s, id, from + 1, i, x);
    }
}

} // verus!
