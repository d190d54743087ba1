//! Entity-relationship diagrams.
use crate::diag::{
    conclude, diagnostic, parsed, report, verdict, Diagnostic, DiagnosticView, ParsedView,
};
use crate::ir::{
    distinct_keys, has_key, key_index, lemma_distinct_push, lemma_distinct_update, lemma_key_from,
    Diagram, DiagramView, EndMarker, ErAttribute, ErAttributeView, ErDiagram, ErDiagramView,
    ErEntity, ErEntityView, ErRelation, ErRelationView, LineStyle, Named,
};
use crate::keywords::{unrecognised, unrecognised_message};
use crate::lines::{line_wf, Line, LineView};
use crate::mermaid::class::{
    after_block, block_close, find_block_close, lemma_block_close, split_label, Connector,
};
use crate::mermaid::scan::{lone_ident, split_lone_id};
use crate::mermaid::state::target_and_label;
use crate::mermaid::tokens::{in_quotes, strip_quotes, tokenize_ws_quoted, tokens, unquoted};
use crate::sound::{grown, lemma_grown, lines_within, loop_free, owed, sound_entities, within};
use crate::table::Keyed;
use crate::text::{
    at_most, before_suffix, char_index, clip, ends, ends_with_char, equals, find_char, find_text,
    lemma_char_from, lemma_views_push, opt_view, same_string, skip, split, split_at_char,
    split_words, strip_suffix, surround, take, text_index, to_string, trim, trim_end, trim_end_of,
    trim_of, views, words,
};
use vstd::prelude::*;

verus! {

// ---------------------------------------------------------------------------
// Relations
// ---------------------------------------------------------------------------

/// The crow's foot at the left end.
pub open spec fn left_foot(t: Seq<char>) -> Option<EndMarker> {
    if t == "||"@ {
        Some(EndMarker::ErOne)
    } else if t == "o|"@ {
        Some(EndMarker::ErZeroOrOne)
    } else if t == "}o"@ {
        Some(EndMarker::ErZeroOrMany)
    } else if t == "}|"@ {
        Some(EndMarker::ErOneOrMany)
    } else {
        None
    }
}

/// The crow's foot at the right end.
pub open spec fn right_foot(t: Seq<char>) -> Option<EndMarker> {
    if t == "||"@ {
        Some(EndMarker::ErOne)
    } else if t == "|o"@ {
        Some(EndMarker::ErZeroOrOne)
    } else if t == "o{"@ {
        Some(EndMarker::ErZeroOrMany)
    } else if t == "|{"@ {
        Some(EndMarker::ErOneOrMany)
    } else {
        None
    }
}

/// A connector whose line begins at index `mid`: two characters for each foot,
/// and two for the line.
pub open spec fn crowfoot_at(t: Seq<char>, mid: int, line: LineStyle) -> Option<Connector> {
    if mid == 2 && t.len() == 6 {
        match left_foot(t.take(2)) {
            Some(from_marker) => match right_foot(t.skip(4)) {
                Some(to_marker) => Some(Connector { from_marker, to_marker, line }),
                None => None,
            },
            None => None,
        }
    } else {
        None
    }
}

/// A connector such as `||--o{`.
pub open spec fn crowfoot(t: Seq<char>) -> Option<Connector> {
    match text_index(t, "--"@) {
        Some(mid) => crowfoot_at(t, mid, LineStyle::Solid),
        None => match text_index(t, ".."@) {
            Some(mid) => crowfoot_at(t, mid, LineStyle::Dashed),
            None => None,
        },
    }
}

/// The relation on a line of three words, the second of which is a connector.
pub open spec fn er_relation(t: Seq<char>) -> Option<ErRelationView> {
    let (part, label) = target_and_label(t);
    let w = words(part);
    if w.len() == 3 {
        match crowfoot(w[1]) {
            Some(c) => Some(
                ErRelationView {
                    from: w[0],
                    to: w[2],
                    from_marker: c.from_marker,
                    to_marker: c.to_marker,
                    label,
                    line: c.line,
                },
            ),
            None => None,
        }
    } else {
        None
    }
}

fn find_left_foot(t: &[char]) -> (r: Option<EndMarker>)
    ensures
        r == left_foot(t@),
{
    if equals(t, "||") {
        Some(EndMarker::ErOne)
    } else if equals(t, "o|") {
        Some(EndMarker::ErZeroOrOne)
    } else if equals(t, "}o") {
        Some(EndMarker::ErZeroOrMany)
    } else if equals(t, "}|") {
        Some(EndMarker::ErOneOrMany)
    } else {
        None
    }
}

fn find_right_foot(t: &[char]) -> (r: Option<EndMarker>)
    ensures
        r == right_foot(t@),
{
    if equals(t, "||") {
        Some(EndMarker::ErOne)
    } else if equals(t, "|o") {
        Some(EndMarker::ErZeroOrOne)
    } else if equals(t, "o{") {
        Some(EndMarker::ErZeroOrMany)
    } else if equals(t, "|{") {
        Some(EndMarker::ErOneOrMany)
    } else {
        None
    }
}

/// A connector such as `||--o{`.
pub fn parse_crowfoot_token(t: &[char]) -> (r: Option<Connector>)
    ensures
        r == crowfoot(t@),
{
    let (mid, line): (usize, LineStyle) = match find_text(t, "--") {
        Some(mid) => (mid, LineStyle::Solid),
        None => match find_text(t, "..") {
            Some(mid) => (mid, LineStyle::Dashed),
            None => {
                return None;
            },
        },
    };
    if mid != 2 || t.len() != 6 {
        return None;
    }
    match find_left_foot(take(t, 2)) {
        Some(from_marker) => match find_right_foot(skip(t, 4)) {
            Some(to_marker) => Some(Connector { from_marker, to_marker, line }),
            None => None,
        },
        None => None,
    }
}

/// The relation on a line of three words, the second of which is a connector.
pub fn try_parse_er_relation(t: &[char]) -> (r: Option<ErRelation>)
    ensures
        opt_view(r) == er_relation(t@),
{
    let (part, label) = split_label(t);
    let w = split_words(part);
    let ghost all = views(w@);
    if w.len() != 3 {
        return None;
    }
    assert(all[0] == w@[0]@ && all[1] == w@[1]@ && all[2] == w@[2]@);
    match parse_crowfoot_token(w[1]) {
        Some(c) => Some(
            ErRelation {
                from: to_string(w[0]),
                to: to_string(w[2]),
                from_marker: c.from_marker,
                to_marker: c.to_marker,
                label,
                line: c.line,
            },
        ),
        None => None,
    }
}

// ---------------------------------------------------------------------------
// Attributes
// ---------------------------------------------------------------------------

/// The keys and the comment that the words `2..n` give.
pub open spec fn er_extras(w: Seq<Seq<char>>, n: int) -> Result<
    (Seq<Seq<char>>, Option<Seq<char>>),
    Seq<char>,
>
    decreases n,
{
    if n <= 2 {
        Ok((Seq::empty(), None))
    } else {
        let t = w[n - 1];
        match er_extras(w, n - 1) {
            Ok((keys, comment)) => if in_quotes(t) {
                if comment is Some {
                    Err("multiple comments on one attribute line"@)
                } else {
                    Ok((keys, Some(unquoted(t))))
                }
            } else if t == "PK"@ || t == "FK"@ || t == "UK"@ {
                Ok((keys.push(t), comment))
            } else {
                Err("syntax error: unrecognised token `"@ + t + "` in entity attribute"@)
            },
            Err(e) => Err(e),
        }
    }
}

/// An attribute: its type, its name, its keys and a quoted comment.
pub open spec fn er_attr(t: Seq<char>) -> Result<ErAttributeView, Seq<char>> {
    let w = tokens(t);
    if w.len() < 2 {
        Err(
            "syntax error: expected `type name` in entity attribute, got `"@ + at_most(t, 40)
                + "`"@,
        )
    } else {
        match er_extras(w, w.len() as int) {
            Ok((keys, comment)) => Ok(
                ErAttributeView { type_text: w[0], name: w[1], keys, comment },
            ),
            Err(e) => Err(e),
        }
    }
}

/// The model of an attribute that may be refused.
pub open spec fn attr_result(r: Result<ErAttribute, String>) -> Result<ErAttributeView, Seq<char>> {
    match r {
        Ok(a) => Ok(a@),
        Err(e) => Err(e@),
    }
}

proof fn lemma_extras_error(w: Seq<Seq<char>>, n: int, m: int)
    requires
        2 < n <= m,
        er_extras(w, n) is Err,
    ensures
        er_extras(w, m) == er_extras(w, n),
    decreases m - n,
{
    if n < m {
        lemma_extras_error(w, n, m - 1);
    }
}

/// An attribute: its type, its name, its keys and a quoted comment.
pub fn parse_er_attr_line(t: &[char]) -> (r: Result<ErAttribute, String>)
    ensures
        attr_result(r) == er_attr(t@),
{
    broadcast use lemma_views_push;

    let w = tokenize_ws_quoted(t);
    let ghost all = views(w@);
    if w.len() < 2 {
        return Err(
            surround(
                "syntax error: expected `type name` in entity attribute, got `",
                clip(t, 40),
                "`",
            ),
        );
    }
    assert(all[0] == w@[0]@ && all[1] == w@[1]@);
    let mut keys: Vec<String> = Vec::new();
    let mut comment: Option<String> = None;
    let mut i: usize = 2;
    assert(views(keys@) =~= Seq::<Seq<char>>::empty());
    while i < w.len()
        invariant
            2 <= i <= w@.len(),
            all == views(w@),
            all == tokens(t@),
            er_extras(all, i as int) == Ok::<(Seq<Seq<char>>, Option<Seq<char>>), Seq<char>>(
                (views(keys@), opt_view(comment)),
            ),
        decreases w@.len() - i,
    {
        broadcast use lemma_views_push;

        let x = w[i];
        assert(all[i as int] == x@);
        match strip_quotes(x) {
            Some(inner) => {
                if comment.is_some() {
                    proof {
                        lemma_extras_error(all, i + 1, all.len() as int);
                    }
                    return Err(String::from_str("multiple comments on one attribute line"));
                }
                comment = Some(to_string(inner));
            },
            None => {
                if equals(x, "PK") || equals(x, "FK") || equals(x, "UK") {
                    keys.push(to_string(x));
                } else {
                    proof {
                        lemma_extras_error(all, i + 1, all.len() as int);
                    }
                    return Err(
                        surround(
                            "syntax error: unrecognised token `",
                            x,
                            "` in entity attribute",
                        ),
                    );
                }
            },
        }
        i = i + 1;
    }
    Ok(ErAttribute { type_text: to_string(w[0]), name: to_string(w[1]), keys, comment })
}

// ---------------------------------------------------------------------------
// Statements
// ---------------------------------------------------------------------------

/// An entity-relationship diagram that is being read.
pub struct Entities {
    entities: Keyed<ErEntity>,
    relations: Vec<ErRelation>,
    errors: Vec<Diagnostic>,
}

/// The model of [`Entities`].
#[verifier::ext_equal]
pub struct EntitiesView {
    /// The entities.
    pub entities: Seq<ErEntityView>,
    /// The relations.
    pub relations: Seq<ErRelationView>,
    /// The errors.
    pub errors: Seq<DiagnosticView>,
}

impl View for Entities {
    type V = EntitiesView;

    closed spec fn view(&self) -> EntitiesView {
        EntitiesView {
            entities: self.entities@,
            relations: views(self.relations@),
            errors: views(self.errors@),
        }
    }
}

/// Nothing read yet.
pub open spec fn entities_start(errors: Seq<DiagnosticView>) -> EntitiesView {
    EntitiesView { entities: Seq::empty(), relations: Seq::empty(), errors }
}

/// The error `message` about the line `l`.
pub open spec fn entities_error(st: EntitiesView, message: Seq<char>, l: LineView) -> EntitiesView {
    EntitiesView { errors: st.errors.push(diagnostic(message, l.start, l.end)), ..st }
}

/// The entities with the entity `id`.
pub open spec fn with_entity(entities: Seq<ErEntityView>, id: Seq<char>) -> Seq<ErEntityView> {
    if has_key(entities, id) {
        entities
    } else {
        entities.push(ErEntityView { id, name: id, attributes: Seq::empty() })
    }
}

/// The place of an entity that is there.
pub open spec fn entity_place(entities: Seq<ErEntityView>, id: Seq<char>) -> int {
    key_index(entities, id)->0
}

/// What an attribute line says of the entity at place `i`.
pub open spec fn attr_line(st: EntitiesView, i: int, t: Seq<char>, l: LineView) -> EntitiesView {
    match er_attr(t) {
        Ok(a) => EntitiesView {
            entities: st.entities.update(
                i,
                ErEntityView {
                    attributes: st.entities[i].attributes.push(a),
                    ..st.entities[i]
                },
            ),
            ..st
        },
        Err(m) => entities_error(st, m, l),
    }
}

/// What the first `n` of the attributes between semicolons say.
pub open spec fn inline_attrs(
    st: EntitiesView,
    i: int,
    attrs: Seq<Seq<char>>,
    n: int,
    l: LineView,
) -> EntitiesView
    decreases n,
{
    if n <= 0 {
        st
    } else {
        let before = inline_attrs(st, i, attrs, n - 1, l);
        let a = trim(attrs[n - 1]);
        if a.len() == 0 {
            before
        } else {
            attr_line(before, i, a, l)
        }
    }
}

/// What the lines `from..to` say of the entity at place `i`.
pub open spec fn block_attrs(
    st: EntitiesView,
    i: int,
    lines: Seq<LineView>,
    from: int,
    to: int,
) -> EntitiesView
    decreases to - from,
{
    if to <= from {
        st
    } else {
        let l = lines[to - 1];
        attr_line(block_attrs(st, i, lines, from, to - 1), i, trim(l.text), l)
    }
}

/// Where the line opens an entity: the index of the brace, and the id.
pub open spec fn entity_head(t: Seq<char>) -> Option<(int, Seq<char>)> {
    match char_index(t, '{') {
        Some(k) => match lone_ident(trim(t.take(k))) {
            Some(id) => Some((k, id)),
            None => None,
        },
        None => None,
    }
}

/// The entity `id` at line `i`, whose brace stands at index `k`; the line to go
/// on with.
pub open spec fn entity_block(
    st: EntitiesView,
    t: Seq<char>,
    k: int,
    id: Seq<char>,
    lines: Seq<LineView>,
    i: int,
) -> (EntitiesView, int) {
    let l = lines[i];
    let entities = with_entity(st.entities, id);
    let place = entity_place(entities, id);
    let declared = EntitiesView { entities, ..st };
    match before_suffix(t.skip(k + 1), '}') {
        Some(inner) => {
            let attrs = split(trim(inner), ';');
            (inline_attrs(declared, place, attrs, attrs.len() as int, l), i + 1)
        },
        None => if ends(trim_end(t), '{') {
            let c = block_close(lines, i + 1);
            let filled = block_attrs(declared, place, lines, i + 1, c);
            (
                if c < lines.len() {
                    filled
                } else {
                    entities_error(
                        filled,
                        "unterminated `"@ + id + " { ... }` entity block (missing `}`)"@,
                        l,
                    )
                },
                after_block(lines, i + 1),
            )
        } else {
            (
                entities_error(
                    st,
                    "syntax error: malformed entity body `"@ + at_most(t, 40) + "`"@,
                    l,
                ),
                i + 1,
            )
        },
    }
}

/// A relation, or an error.
pub open spec fn er_statement(st: EntitiesView, t: Seq<char>, l: LineView) -> EntitiesView {
    match er_relation(t) {
        Some(r) => if r.from == r.to {
            entities_error(
                st,
                "self relations are not supported in ER diagrams (`"@ + r.from + "` -> `"@ + r.to
                    + "`)"@,
                l,
            )
        } else {
            EntitiesView {
                entities: with_entity(with_entity(st.entities, r.from), r.to),
                relations: st.relations.push(r),
                ..st
            }
        },
        None => entities_error(st, unrecognised(t), l),
    }
}

/// What the statement at line `i` does, and the line to go on with.
pub open spec fn er_step(st: EntitiesView, lines: Seq<LineView>, i: int) -> (EntitiesView, int) {
    let l = lines[i];
    let t = trim(l.text);
    if t.len() == 0 {
        (st, i + 1)
    } else {
        match entity_head(t) {
            Some((k, id)) => entity_block(st, t, k, id, lines, i),
            None => (er_statement(st, t, l), i + 1),
        }
    }
}

/// A statement is followed by another one.
pub proof fn lemma_er_step(st: EntitiesView, lines: Seq<LineView>, i: int)
    requires
        0 <= i < lines.len(),
    ensures
        i < er_step(st, lines, i).1 <= lines.len(),
{
    lemma_block_close(lines, i + 1);
}

/// What the statements from line `i` on do.
pub open spec fn er_lines(st: EntitiesView, lines: Seq<LineView>, i: int) -> EntitiesView
    decreases lines.len() - i,
{
    if 0 <= i < lines.len() {
        proof {
            lemma_er_step(st, lines, i);
        }
        let (after, next) = er_step(st, lines, i);
        er_lines(after, lines, next)
    } else {
        st
    }
}

/// What the entity-relationship diagram `lines` comes to.
pub open spec fn entities(lines: Seq<LineView>, errors: Seq<DiagnosticView>) -> ParsedView {
    let st = er_lines(entities_start(errors), lines, 0);
    verdict(
        DiagramView::Er(ErDiagramView { entities: st.entities, relations: st.relations }),
        st.errors,
    )
}

// ---------------------------------------------------------------------------
// Reading
// ---------------------------------------------------------------------------

/// An entity that was added is there.
proof fn lemma_with_entity(entities: Seq<ErEntityView>, id: Seq<char>)
    ensures
        ({
            let after = with_entity(entities, id);
            &&& has_key(after, id)
            &&& 0 <= entity_place(after, id) < after.len()
            &&& key_index(after, id) == Some(entity_place(after, id))
            &&& !has_key(entities, id) ==> entity_place(after, id) == entities.len()
        }),
{
    let after = with_entity(entities, id);
    lemma_key_from(entities, id, 0);
    lemma_key_from(after, id, 0);
    if !has_key(entities, id) {
        assert(after[after.len() - 1].id == id);
        assert(after[entity_place(after, id)].key() == id);
    }
}

fn ensure_entity(entities: &mut Keyed<ErEntity>, id: &String) -> (r: usize)
    requires
        old(entities).wf(),
    ensures
        final(entities).wf(),
        final(entities)@ == with_entity(old(entities)@, id@),
        r == entity_place(final(entities)@, id@),
        r < final(entities)@.len(),
{
    proof {
        lemma_with_entity(entities@, id@);
    }
    match entities.find(id) {
        Some(i) => i,
        None => {
            let e = ErEntity { id: id.clone(), name: id.clone(), attributes: Vec::new() };
            assert(views(e.attributes@) =~= Seq::<ErAttributeView>::empty());
            entities.push(e)
        },
    }
}

impl Entities {
    /// The entities are in order.
    pub closed spec fn wf(&self) -> bool {
        self.entities.wf()
    }

    fn error(&mut self, message: String, l: &Line)
        requires
            old(self).wf(),
        ensures
            final(self).wf(),
            final(self)@ == entities_error(old(self)@, message@, l@),
    {
        report(&mut self.errors, message, l.start, l.end);
    }

    fn attr_line(&mut self, i: usize, t: &[char], l: &Line)
        requires
            old(self).wf(),
            i < old(self)@.entities.len(),
        ensures
            final(self).wf(),
            final(self)@ == attr_line(old(self)@, i as int, t@, l@),
            final(self)@.entities.len() == old(self)@.entities.len(),
    {
        broadcast use lemma_views_push;

        match parse_er_attr_line(t) {
            Ok(a) => {
                let ghost before = self.entities@;
                let ghost view = a@;
                let e = self.entities.at_mut(i);
                e.attributes.push(a);
                assert(self.entities@ =~= before.update(
                    i as int,
                    ErEntityView {
                        attributes: before[i as int].attributes.push(view),
                        ..before[i as int]
                    },
                ));
            },
            Err(m) => {
                self.error(m, l);
            },
        }
    }

    fn inline_attrs(&mut self, i: usize, inner: &[char], l: &Line)
        requires
            old(self).wf(),
            i < old(self)@.entities.len(),
        ensures
            final(self).wf(),
            final(self)@ == inline_attrs(
                old(self)@,
                i as int,
                split(inner@, ';'),
                split(inner@, ';').len() as int,
                l@,
            ),
    {
        let attrs = split_at_char(inner, ';');
        let ghost all = views(attrs@);
        let ghost start = self@;
        let mut n: usize = 0;
        while n < attrs.len()
            invariant
                self.wf(),
                n <= attrs@.len(),
                all == views(attrs@),
                i < self@.entities.len(),
                self@ == inline_attrs(start, i as int, all, n as int, l@),
            decreases attrs@.len() - n,
        {
            assert(all[n as int] == attrs@[n as int]@);
            let a = trim_of(attrs[n]);
            if a.len() > 0 {
                self.attr_line(i, a, l);
            }
            n = n + 1;
        }
    }

    fn block_attrs(&mut self, i: usize, lines: &[Line], from: usize, to: usize)
        requires
            old(self).wf(),
            i < old(self)@.entities.len(),
            from <= to <= lines@.len(),
        ensures
            final(self).wf(),
            final(self)@ == block_attrs(
                old(self)@,
                i as int,
                views(lines@),
                from as int,
                to as int,
            ),
    {
        let ghost all = views(lines@);
        let ghost start = self@;
        let mut n: usize = from;
        while n < to
            invariant
                self.wf(),
                from <= n <= to <= lines@.len(),
                all == views(lines@),
                i < self@.entities.len(),
                self@ == block_attrs(start, i as int, all, from as int, n as int),
            decreases to - n,
        {
            assert(all[n as int] == lines@[n as int]@);
            self.attr_line(i, trim_of(lines[n].text), &lines[n]);
            n = n + 1;
        }
    }

    fn block(&mut self, t: &[char], k: usize, id: String, lines: &[Line], i: usize) -> (next: usize)
        requires
            old(self).wf(),
            i < lines@.len(),
            k < t@.len(),
        ensures
            final(self).wf(),
            (final(self)@, next as int) == entity_block(
                old(self)@,
                t@,
                k as int,
                id@,
                views(lines@),
                i as int,
            ),
    {
        let ghost all = views(lines@);
        let len: usize = lines.len();
        let t_len: usize = t.len();
        let l = &lines[i];
        assert(all[i as int] == l@);
        match strip_suffix(skip(t, k + 1), '}') {
            Some(inner) => {
                let place: usize = ensure_entity(&mut self.entities, &id);
                self.inline_attrs(place, trim_of(inner), l);
                return i + 1;
            },
            None => {},
        }
        if !ends_with_char(trim_end_of(t), '{') {
            self.error(
                surround("syntax error: malformed entity body `", clip(t, 40), "`"),
                l,
            );
            return i + 1;
        }
        let place: usize = ensure_entity(&mut self.entities, &id);
        let c: usize = find_block_close(lines, i + 1);
        self.block_attrs(place, lines, i + 1, c);
        if c < len {
            return c + 1;
        }
        let mut message = String::from_str("unterminated `");
        message.append(id.as_str());
        message.append(" { ... }` entity block (missing `}`)");
        self.error(message, l);
        c
    }

    fn statement(&mut self, t: &[char], l: &Line)
        requires
            old(self).wf(),
        ensures
            final(self).wf(),
            final(self)@ == er_statement(old(self)@, t@, l@),
    {
        broadcast use lemma_views_push;

        match try_parse_er_relation(t) {
            Some(r) => {
                if same_string(&r.from, &r.to) {
                    let mut message = String::from_str(
                        "self relations are not supported in ER diagrams (`",
                    );
                    message.append(r.from.as_str());
                    message.append("` -> `");
                    message.append(r.to.as_str());
                    message.append("`)");
                    self.error(message, l);
                } else {
                    ensure_entity(&mut self.entities, &r.from);
                    ensure_entity(&mut self.entities, &r.to);
                    self.relations.push(r);
                }
            },
            None => {
                self.error(unrecognised_message(t), l);
            },
        }
    }

    fn step(&mut self, lines: &[Line], i: usize) -> (next: usize)
        requires
            old(self).wf(),
            i < lines@.len(),
        ensures
            final(self).wf(),
            (final(self)@, next as int) == er_step(old(self)@, views(lines@), i as int),
    {
        let ghost all = views(lines@);
        let len: usize = lines.len();
        let l = &lines[i];
        assert(all[i as int] == l@);
        let t = trim_of(l.text);
        if t.len() == 0 {
            return i + 1;
        }
        match find_char(t, '{') {
            Some(k) => match split_lone_id(trim_of(take(t, k))) {
                Some(id) => {
                    return self.block(t, k, id, lines, i);
                },
                None => {},
            },
            None => {},
        }
        self.statement(t, l);
        i + 1
    }
}

/// Reads the statements of an entity-relationship diagram; `errors` are those
/// found before.
pub fn parse_er(lines: &[Line], errors: Vec<Diagnostic>) -> (r: Result<Diagram, Vec<Diagnostic>>)
    ensures
        parsed(r) == entities(views(lines@), views(errors@)),
{
    let mut st = Entities { entities: Keyed::new(), relations: Vec::new(), errors };
    let ghost start = st@;
    let ghost all = views(lines@);
    assert(start =~= entities_start(views(errors@)));
    let mut i: usize = 0;
    while i < lines.len()
        invariant
            i <= lines@.len(),
            all == views(lines@),
            st.wf(),
            er_lines(start, all, 0) == er_lines(st@, all, i as int),
        decreases lines@.len() - i,
    {
        proof {
            lemma_er_step(st@, all, i as int);
        }
        i = st.step(lines, i);
    }
    let Entities { entities, relations, errors } = st;
    let entities = entities.into_items();
    conclude(Diagram::Er(ErDiagram { entities, relations }), errors)
}

// ---------------------------------------------------------------------------
// Laws
// ---------------------------------------------------------------------------

/// What holds after every line of a source of `len` bytes.
pub open spec fn entities_ok(st: EntitiesView, len: int) -> bool {
    &&& sound_entities(ErDiagramView { entities: st.entities, relations: st.relations })
    &&& loop_free(
        DiagramView::Er(ErDiagramView { entities: st.entities, relations: st.relations }),
    )
    &&& within(st.errors, len)
}

/// Growing the list of entities keeps what holds.
proof fn lemma_entities_grow(st: EntitiesView, entities: Seq<ErEntityView>, len: int)
    requires
        entities_ok(st, len),
        distinct_keys(entities),
        grown(st.entities, entities),
    ensures
        entities_ok((EntitiesView { entities, ..st }), len),
{
    lemma_grown(st.entities, entities);
}

proof fn lemma_entity_added(entities: Seq<ErEntityView>, id: Seq<char>)
    requires
        distinct_keys(entities),
    ensures
        distinct_keys(with_entity(entities, id)),
        grown(entities, with_entity(entities, id)),
        has_key(with_entity(entities, id), id),
{
    lemma_with_entity(entities, id);
    if !has_key(entities, id) {
        lemma_distinct_push(
            entities,
            ErEntityView { id, name: id, attributes: Seq::empty() },
        );
    }
}

proof fn lemma_attr_line(st: EntitiesView, i: int, t: Seq<char>, l: LineView, len: int)
    requires
        entities_ok(st, len),
        0 <= i < st.entities.len(),
        line_wf(l),
        l.end <= len,
    ensures
        entities_ok(attr_line(st, i, t, l), len),
        attr_line(st, i, t, l).entities.len() == st.entities.len(),
{
    if let Ok(a) = er_attr(t) {
        let e = ErEntityView {
            attributes: st.entities[i].attributes.push(a),
            ..st.entities[i]
        };
        lemma_distinct_update(st.entities, i, e);
        lemma_entities_grow(st, st.entities.update(i, e), len);
    }
}

proof fn lemma_inline_attrs(
    st: EntitiesView,
    i: int,
    attrs: Seq<Seq<char>>,
    n: int,
    l: LineView,
    len: int,
)
    requires
        entities_ok(st, len),
        0 <= i < st.entities.len(),
        line_wf(l),
        l.end <= len,
    ensures
        entities_ok(inline_attrs(st, i, attrs, n, l), len),
        inline_attrs(st, i, attrs, n, l).entities.len() == st.entities.len(),
    decreases n,
{
    if n > 0 {
        lemma_inline_attrs(st, i, attrs, n - 1, l, len);
        lemma_attr_line(inline_attrs(st, i, attrs, n - 1, l), i, trim(attrs[n - 1]), l, len);
    }
}

proof fn lemma_block_attrs(
    st: EntitiesView,
    i: int,
    lines: Seq<LineView>,
    from: int,
    to: int,
    len: int,
)
    requires
        entities_ok(st, len),
        0 <= i < st.entities.len(),
        lines_within(lines, len),
        0 <= from,
        to <= lines.len(),
    ensures
        entities_ok(block_attrs(st, i, lines, from, to), len),
        block_attrs(st, i, lines, from, to).entities.len() == st.entities.len(),
    decreases to - from,
{
    if from < to {
        lemma_block_attrs(st, i, lines, from, to - 1, len);
        let l = lines[to - 1];
        lemma_attr_line(block_attrs(st, i, lines, from, to - 1), i, trim(l.text), l, len);
    }
}

proof fn lemma_er_step_ok(st: EntitiesView, lines: Seq<LineView>, i: int, len: int)
    requires
        entities_ok(st, len),
        lines_within(lines, len),
        0 <= i < lines.len(),
    ensures
        entities_ok(er_step(st, lines, i).0, len),
{
    let l = lines[i];
    let t = trim(l.text);
    match entity_head(t) {
        Some((k, id)) => {
            let entities = with_entity(st.entities, id);
            let place = entity_place(entities, id);
            let declared = EntitiesView { entities, ..st };
            lemma_entity_added(st.entities, id);
            lemma_with_entity(st.entities, id);
            lemma_entities_grow(st, entities, len);
            match before_suffix(t.skip(k + 1), '}') {
                Some(inner) => {
                    let attrs = split(trim(inner), ';');
                    lemma_inline_attrs(declared, place, attrs, attrs.len() as int, l, len);
                },
                None => {
                    lemma_block_close(lines, i + 1);
                    let c = block_close(lines, i + 1);
                    lemma_block_attrs(declared, place, lines, i + 1, c, len);
                },
            }
        },
        None => {
            if let Some(r) = er_relation(t) {
                let a = with_entity(st.entities, r.from);
                let b = with_entity(a, r.to);
                lemma_entity_added(st.entities, r.from);
                lemma_entity_added(a, r.to);
                lemma_grown(a, b);
                lemma_entities_grow(st, b, len);
            }
        },
    }
}

proof fn lemma_er_lines(st: EntitiesView, lines: Seq<LineView>, i: int, len: int)
    requires
        entities_ok(st, len),
        lines_within(lines, len),
        0 <= i,
    ensures
        entities_ok(er_lines(st, lines, i), len),
    decreases lines.len() - i,
{
    if i < lines.len() {
        lemma_er_step(st, lines, i);
        lemma_er_step_ok(st, lines, i, len);
        let (after, next) = er_step(st, lines, i);
        lemma_er_lines(after, lines, next, len);
    }
}

/// An entity-relationship diagram that is accepted is sound and has no relation
/// from an entity to itself. One that is refused has an error, and all errors
/// are within the source.
pub proof fn law_entities(lines: Seq<LineView>, errors: Seq<DiagnosticView>, len: int)
    requires
        lines_within(lines, len),
        within(errors, len),
    ensures
        owed(entities(lines, errors), len),
        entities(lines, errors) matches Ok(d) ==> loop_free(d),
{
    lemma_er_lines(entities_start(errors), lines, 0, len);
}

/// A part of an inline body that is blank or an attribute.
pub open spec fn attr_read(part: Seq<char>) -> bool {
    trim(part).len() == 0 || er_attr(trim(part)) is Ok
}

/// The line after the statement at line `i`.
pub open spec fn er_next(lines: Seq<LineView>, i: int) -> int {
    let t = trim(lines[i].text);
    match entity_head(t) {
        Some((k, _)) => if before_suffix(t.skip(k + 1), '}') is None && ends(trim_end(t), '{') {
            after_block(lines, i + 1)
        } else {
            i + 1
        },
        None => i + 1,
    }
}

/// Whether the statement at line `i` is understood as a whole: it is blank, a
/// relation between two entities, or an entity whose body is closed and holds
/// only attributes.
pub open spec fn er_understood(lines: Seq<LineView>, i: int) -> bool {
    let t = trim(lines[i].text);
    t.len() == 0 || match entity_head(t) {
        Some((k, _)) => match before_suffix(t.skip(k + 1), '}') {
            Some(inner) => forall|j: int|
                0 <= j < split(trim(inner), ';').len() ==> attr_read(
                    #[trigger] split(trim(inner), ';')[j],
                ),
            None => ends(trim_end(t), '{') && block_close(lines, i + 1) < lines.len() && forall|
                j: int,
            |
                i < j < block_close(lines, i + 1) ==> er_attr(trim((#[trigger] lines[j]).text))
                    is Ok,
        },
        None => er_relation(t) matches Some(r) && r.from != r.to,
    }
}

/// Whether every statement from line `i` on is understood.
pub open spec fn er_all_understood(lines: Seq<LineView>, i: int) -> bool
    decreases lines.len() - i,
{
    if 0 <= i < lines.len() {
        proof {
            lemma_block_close(lines, i + 1);
        }
        er_understood(lines, i) && er_all_understood(lines, er_next(lines, i))
    } else {
        true
    }
}

/// The relation between two entities on a line.
pub open spec fn relation_on(l: LineView) -> Option<ErRelationView> {
    let t = trim(l.text);
    match (entity_head(t), er_relation(t)) {
        (None, Some(r)) => if t.len() > 0 && r.from != r.to {
            Some(r)
        } else {
            None
        },
        _ => None,
    }
}

/// The relations between two entities from line `i` on.
pub open spec fn er_relations(lines: Seq<LineView>, i: int) -> Seq<ErRelationView>
    decreases lines.len() - i,
{
    if 0 <= i < lines.len() {
        proof {
            lemma_block_close(lines, i + 1);
        }
        let rest = er_relations(lines, er_next(lines, i));
        match relation_on(lines[i]) {
            Some(r) => seq![r] + rest,
            None => rest,
        }
    } else {
        Seq::empty()
    }
}

proof fn lemma_inline_attrs_read(
    st: EntitiesView,
    i: int,
    attrs: Seq<Seq<char>>,
    n: int,
    l: LineView,
)
    requires
        0 <= n <= attrs.len(),
    ensures
        inline_attrs(st, i, attrs, n, l).relations == st.relations,
        inline_attrs(st, i, attrs, n, l).errors.len() >= st.errors.len(),
        inline_attrs(st, i, attrs, n, l).errors.len() == st.errors.len() <==> forall|j: int|
            0 <= j < n ==> attr_read(#[trigger] attrs[j]),
    decreases n,
{
    if n > 0 {
        lemma_inline_attrs_read(st, i, attrs, n - 1, l);
        let before = inline_attrs(st, i, attrs, n - 1, l);
        let after = inline_attrs(st, i, attrs, n, l);
        assert(after.errors.len() == before.errors.len() <==> attr_read(attrs[n - 1]));
    }
}

proof fn lemma_block_attrs_read(
    st: EntitiesView,
    i: int,
    lines: Seq<LineView>,
    from: int,
    to: int,
)
    ensures
        block_attrs(st, i, lines, from, to).relations == st.relations,
        block_attrs(st, i, lines, from, to).errors.len() >= st.errors.len(),
        block_attrs(st, i, lines, from, to).errors.len() == st.errors.len() <==> forall|j: int|
            from <= j < to ==> er_attr(trim((#[trigger] lines[j]).text)) is Ok,
    decreases to - from,
{
    if from < to {
        lemma_block_attrs_read(st, i, lines, from, to - 1);
        let before = block_attrs(st, i, lines, from, to - 1);
        let after = block_attrs(st, i, lines, from, to);
        assert(after.errors.len() == before.errors.len() <==> er_attr(trim(lines[to - 1].text))
            is Ok);
    }
}

proof fn lemma_er_step_read(st: EntitiesView, lines: Seq<LineView>, i: int)
    requires
        0 <= i < lines.len(),
    ensures
        er_step(st, lines, i).1 == er_next(lines, i),
        er_step(st, lines, i).0.errors.len() >= st.errors.len(),
        er_step(st, lines, i).0.errors.len() == st.errors.len() <==> er_understood(lines, i),
        er_step(st, lines, i).0.relations == (match relation_on(lines[i]) {
            Some(r) => st.relations.push(r),
            None => st.relations,
        }),
{
    let l = lines[i];
    let t = trim(l.text);
    if let Some((k, id)) = entity_head(t) {
        let entities = with_entity(st.entities, id);
        let place = entity_place(entities, id);
        let declared = EntitiesView { entities, ..st };
        match before_suffix(t.skip(k + 1), '}') {
            Some(inner) => {
                let attrs = split(trim(inner), ';');
                lemma_inline_attrs_read(declared, place, attrs, attrs.len() as int, l);
            },
            None => {
                let c = block_close(lines, i + 1);
                lemma_block_attrs_read(declared, place, lines, i + 1, c);
            },
        }
        lemma_char_from(t, '{', 0);
    }
}

/// No line is passed over: every relation between two entities is kept, in the
/// order of the lines, and there is no error exactly where every statement is
/// understood.
pub proof fn law_no_line_is_passed_over(st: EntitiesView, lines: Seq<LineView>, i: int)
    requires
        0 <= i,
    ensures
        er_lines(st, lines, i).relations == st.relations + er_relations(lines, i),
        er_lines(st, lines, i).errors.len() >= st.errors.len(),
        er_lines(st, lines, i).errors.len() == st.errors.len() <==> er_all_understood(lines, i),
    decreases lines.len() - i,
{
    if i < lines.len() {
        lemma_er_step(st, lines, i);
        lemma_er_step_read(st, lines, i);
        let (after, next) = er_step(st, lines, i);
        law_no_line_is_passed_over(after, lines, next);
        assert(er_lines(st, lines, i).relations =~= st.relations + er_relations(lines, i));
    }
}

} // verus!
