//! Members, attributes and declarations as they are written, and what is read from
//! them.
use crate::ir::{
    has_key, ClassNodeView, ClassRelationView, ErAttributeView, ErEntityView, ErRelationView,
    ParticipantKind, ParticipantView,
};
use crate::lines::LineView;
use crate::mermaid::class::{
    class_member, class_relation, class_statement, member_line, past_colons, visibility,
    ClassesView,
};
use crate::mermaid::er::{attr_line, er_attr, er_extras, er_relation, er_statement, EntitiesView};
use crate::mermaid::laws::{
    is_id, lemma_blank_nothing, lemma_found_at, lemma_trim_same, lemma_trim_space, lemma_trimmed,
};
use crate::mermaid::readings::{is_label, is_word, lemma_first_word, lemma_space_skipped};
use crate::mermaid::sequence::{declare_participant, SeqView};
use crate::mermaid::tokens::{in_quotes, past_token, tokens, unquoted};
use crate::text::{
    char_from, char_index, has_char, has_prefix, lemma_char_from, lemma_text_from, lemma_trim_len,
    occurs_at, text_index, trim, trim_end, trim_start, white_space,
};
use vstd::prelude::*;

verus! {

// ---------------------------------------------------------------------------
// Members of classes
// ---------------------------------------------------------------------------

/// The mark of a visibility.
pub open spec fn is_mark(c: char) -> bool {
    c == '+' || c == '-' || c == '#' || c == '~'
}

/// The mark before a member, where it has one.
pub open spec fn mark(vis: Option<char>) -> Seq<char> {
    match vis {
        Some(c) => seq![c],
        None => Seq::empty(),
    }
}

/// Whether a member can be `rest` behind the mark `vis`.
pub open spec fn markable(vis: Option<char>, rest: Seq<char>) -> bool {
    rest.len() > 0 && !white_space(rest[0]) && match vis {
        Some(c) => is_mark(c),
        None => !is_mark(rest[0]),
    }
}

proof fn lemma_mark(vis: Option<char>, rest: Seq<char>)
    requires
        markable(vis, rest),
    ensures
        ({
            let t = mark(vis) + rest;
            let marked = t.len() > 0 && visibility(t[0]);
            &&& marked == (vis is Some)
            &&& vis is Some ==> t.take(1) == mark(vis) && trim_start(t.skip(1)) == rest
            &&& vis is None ==> t == rest
        }),
{
    let t = mark(vis) + rest;
    match vis {
        Some(c) => {
            assert(t[0] == c);
            assert(t.take(1) =~= seq![c]);
            assert(t.skip(1) =~= rest);
            lemma_trimmed(rest);
        },
        None => {
            assert(t =~= rest);
        },
    }
}

/// `+name: type` is read as an attribute that shows its mark, its name and its type.
pub proof fn law_typed_attribute_is_read(vis: Option<char>, name: Seq<char>, ty: Seq<char>)
    requires
        is_label(name),
        is_label(ty),
        markable(vis, name),
        forall|i: int| 0 <= i < name.len() ==> name[i] != '(' && name[i] != ':',
        forall|i: int| 0 <= i < ty.len() ==> ty[i] != '(',
    ensures
        class_member(mark(vis) + (name + (seq![':', ' '] + ty))) == (
            mark(vis) + name + seq![':', ' '] + ty,
            false,
        ),
{
    reveal_strlit(": ");
    let rest = name + (seq![':', ' '] + ty);
    let n = name.len() as int;
    assert(rest[0] == name[0]);
    lemma_mark(vis, rest);
    lemma_char_from(rest, '(', 0);
    assert forall|j: int| 0 <= j < rest.len() implies rest[j] != '(' && (j < n ==> rest[j] != ':') by {
        if j < n {
            assert(rest[j] == name[j]);
        } else if j >= n + 2 {
            assert(rest[j] == ty[j - n - 2]);
        }
    }
    lemma_char_from(rest, ':', 0);
    assert(rest[n] == ':');
    assert(rest.take(n) =~= name);
    assert(rest.skip(n + 1) =~= seq![' '] + ty);
    lemma_trim_same(name);
    lemma_trim_space(ty);
    lemma_trimmed(ty);
    lemma_trim_same(ty);
    assert(trim(seq![' '] + ty) == trim_end(ty));
    assert(": "@ =~= seq![':', ' ']);
}

/// `+type name`, without a colon, is read as an attribute that shows its mark and all
/// behind it.
pub proof fn law_plain_attribute_is_read(vis: Option<char>, text: Seq<char>)
    requires
        is_label(text),
        markable(vis, text),
        forall|i: int| 0 <= i < text.len() ==> text[i] != '(' && text[i] != ':',
    ensures
        class_member(mark(vis) + text) == (mark(vis) + text, false),
{
    lemma_mark(vis, text);
    lemma_char_from(text, '(', 0);
    lemma_char_from(text, ':', 0);
    lemma_trim_same(text);
}

/// `+name(args) type` is read as a method that shows its mark, its name, what stands
/// between its brackets, and its type behind a colon, where it has one.
pub proof fn law_method_is_read(
    vis: Option<char>,
    name: Seq<char>,
    args: Seq<char>,
    ret: Option<Seq<char>>,
)
    requires
        is_label(name),
        markable(vis, name),
        forall|i: int| 0 <= i < name.len() ==> name[i] != '(',
        forall|i: int| 0 <= i < args.len() ==> args[i] != ')',
        ret matches Some(r) ==> is_label(r) && r[0] != ':',
    ensures
        class_member(
            mark(vis) + (name + (seq!['('] + args + seq![')'] + (match ret {
                Some(r) => seq![' '] + r,
                None => Seq::empty(),
            }))),
        ) == (
            mark(vis) + name + seq!['('] + args + seq![')'] + (match ret {
                Some(r) => seq![':', ' '] + r,
                None => Seq::empty(),
            }),
            true,
        ),
{
    reveal_strlit("(");
    reveal_strlit(")");
    reveal_strlit(": ");
    assert("("@ =~= seq!['(']);
    assert(")"@ =~= seq![')']);
    assert(": "@ =~= seq![':', ' ']);
    let more = match ret {
        Some(r) => seq![' '] + r,
        None => Seq::empty(),
    };
    let tail = seq!['('] + args + seq![')'] + more;
    let rest = name + tail;
    let n = name.len() as int;
    let c = n + 1 + args.len();
    assert(rest[0] == name[0]);
    lemma_mark(vis, rest);
    lemma_char_from(rest, '(', 0);
    assert forall|j: int| 0 <= j < n implies rest[j] != '(' by {
        assert(rest[j] == name[j]);
    }
    assert(rest[n] == '(');
    assert(char_index(rest, '(') == Some(n));
    lemma_char_from(rest, ')', n);
    assert(rest[c] == ')');
    assert forall|j: int| n <= j < c implies rest[j] != ')' by {
        if j > n {
            assert(rest[j] == args[j - n - 1]);
        }
    }
    assert(char_from(rest, ')', n) == Some(c));
    assert(rest.subrange(n + 1, c) =~= args);
    assert(rest.take(n) =~= name);
    lemma_trim_same(name);
    assert(rest.skip(c + 1) =~= more);
    match ret {
        Some(r) => {
            lemma_trim_space(r);
            lemma_trimmed(r);
            lemma_trim_same(r);
            assert(trim(seq![' '] + r) == trim_end(r));
            assert(past_colons(r, 0) == 0);
            assert(r.skip(0) =~= r);
            let head = mark(vis) + name + "("@ + args + ")"@;
            assert(head + ": "@ + r =~= head + (seq![':', ' '] + r));
        },
        None => {
            lemma_blank_nothing();
            let nothing = Seq::<char>::empty();
            assert(trim(more) =~= nothing);
            assert(past_colons(nothing, 0) == 0);
            assert(nothing.skip(0) =~= nothing);
            let head = mark(vis) + name + "("@ + args + ")"@;
            assert(head + Seq::empty() =~= head);
        },
    }
}

/// A member is added behind those of its kind that its class has, and no other class
/// changes.
pub proof fn law_member_is_added(st: ClassesView, i: int, t: Seq<char>, l: LineView)
    requires
        0 <= i < st.classes.len(),
        !has_prefix(t, "<<"@),
        !has_char(t, '~'),
    ensures
        ({
            let after = member_line(st, i, t, l);
            let (text, is_method) = class_member(t);
            &&& after.errors == st.errors
            &&& after.relations == st.relations
            &&& after.classes.len() == st.classes.len()
            &&& forall|j: int|
                0 <= j < st.classes.len() && j != i ==> after.classes[j] == st.classes[j]
            &&& after.classes[i].id == st.classes[i].id
            &&& after.classes[i].name == st.classes[i].name
            &&& after.classes[i].stereotype == st.classes[i].stereotype
            &&& is_method ==> after.classes[i].methods == st.classes[i].methods.push(text)
                && after.classes[i].attributes == st.classes[i].attributes
            &&& !is_method ==> after.classes[i].attributes == st.classes[i].attributes.push(text)
                && after.classes[i].methods == st.classes[i].methods
        }),
{
}

/// `<<stereotype>>` in the block of a class gives the class that stereotype, and changes
/// nothing else.
pub proof fn law_stereotype_is_read(st: ClassesView, i: int, name: Seq<char>, l: LineView)
    requires
        0 <= i < st.classes.len(),
        is_label(name),
        forall|k: int| 0 <= k < name.len() ==> name[k] != '>',
    ensures
        member_line(st, i, "<<"@ + (name + ">>"@), l) == (ClassesView {
            classes: st.classes.update(
                i,
                ClassNodeView { stereotype: Some(name), ..st.classes[i] },
            ),
            ..st
        }),
{
    reveal_strlit("<<");
    reveal_strlit(">>");
    let rest = name + ">>"@;
    let t = "<<"@ + rest;
    let n = name.len() as int;
    assert(t.take(2) =~= "<<"@);
    assert(t.subrange(0, 2) =~= "<<"@);
    assert(t.skip(2) =~= rest);
    assert(rest.subrange(n, n + 2) =~= ">>"@);
    assert forall|k: int| 0 <= k < n implies !occurs_at(rest, ">>"@, k) by {
        if occurs_at(rest, ">>"@, k) {
            assert(rest.subrange(k, k + 2)[0] == rest[k]);
            assert(rest[k] == name[k]);
        }
    }
    lemma_found_at(rest, ">>"@, 0, n);
    assert(rest.take(n) =~= name);
    lemma_trim_same(name);
}

/// A statement that relates two classes adds its relation behind those that are there,
/// with the place of its line.
pub proof fn law_class_relation_is_added(
    st: ClassesView,
    t: Seq<char>,
    l: LineView,
    r: ClassRelationView,
)
    requires
        class_relation(t) == Some(Ok::<ClassRelationView, Seq<char>>(r)),
    ensures
        ({
            let after = class_statement(st, t, l);
            &&& after.classes == st.classes
            &&& after.errors == st.errors
            &&& after.relations.len() == st.relations.len() + 1
            &&& forall|i: int|
                0 <= i < st.relations.len() ==> after.relations[i] == st.relations[i]
            &&& after.relations[st.relations.len() as int].relation == r
        }),
{
}

// ---------------------------------------------------------------------------
// Attributes of entities
// ---------------------------------------------------------------------------

/// Words, each behind a space.
pub open spec fn spaced(w: Seq<Seq<char>>, i: int) -> Seq<char>
    decreases w.len() - i,
{
    if i >= w.len() {
        Seq::empty()
    } else {
        seq![' '] + (w[i] + spaced(w, i + 1))
    }
}

/// A word that `tokens` does not split: one without quotes, or one in quotes.
pub open spec fn is_piece(w: Seq<char>) -> bool {
    is_word(w) || exists|c: Seq<char>| w == #[trigger] in_marks(c) && quotable(c)
}

/// A comment in quotes.
pub open spec fn in_marks(c: Seq<char>) -> Seq<char> {
    seq!['"'] + c + seq!['"']
}

/// Whether a comment can stand in quotes.
pub open spec fn quotable(c: Seq<char>) -> bool {
    forall|i: int| 0 <= i < c.len() ==> c[i] != '"'
}

proof fn lemma_quoted_end(c: Seq<char>, rest: Seq<char>, i: int)
    requires
        quotable(c),
        rest.len() > 0 ==> rest[0] == ' ',
        1 <= i <= c.len() + 1,
    ensures
        past_token(in_marks(c) + rest, i, true) == c.len() + 2,
    decreases c.len() + 1 - i,
{
    let t = in_marks(c) + rest;
    let n = c.len() as int;
    if i <= n {
        assert(t[i] == c[i - 1]);
        lemma_quoted_end(c, rest, i + 1);
    } else {
        assert(t[n + 1] == '"');
        if rest.len() > 0 {
            assert(t[n + 2] == rest[0]);
        }
        reveal_with_fuel(past_token, 2);
    }
}

proof fn lemma_first_piece(w: Seq<char>, rest: Seq<char>)
    requires
        is_piece(w),
        rest.len() > 0 ==> rest[0] == ' ',
    ensures
        tokens(w + rest) == seq![w] + tokens(rest),
        w.len() > 0,
        !white_space(w[0]),
{
    if is_word(w) {
        lemma_first_word(w, rest);
    } else {
        let c = choose|c: Seq<char>| w == #[trigger] in_marks(c) && quotable(c);
        let t = w + rest;
        assert(t[0] == '"');
        lemma_trimmed(t);
        lemma_quoted_end(c, rest, 1);
        assert(past_token(t, 0, false) == w.len());
        assert(t.take(w.len() as int) =~= w);
        assert(t.skip(w.len() as int) =~= rest);
    }
}

proof fn lemma_pieces(w: Seq<Seq<char>>, i: int)
    requires
        0 <= i <= w.len(),
        forall|k: int| 0 <= k < w.len() ==> is_piece(#[trigger] w[k]),
    ensures
        tokens(spaced(w, i)) == w.skip(i),
        spaced(w, i).len() > 0 ==> spaced(w, i)[0] == ' ',
    decreases w.len() - i,
{
    if i < w.len() {
        lemma_pieces(w, i + 1);
        let rest = spaced(w, i + 1);
        assert(is_piece(w[i]));
        lemma_first_piece(w[i], rest);
        let body = w[i] + rest;
        assert(body[0] == w[i][0]);
        lemma_space_skipped(body);
        assert(seq![w[i]] + w.skip(i + 1) =~= w.skip(i));
    } else {
        lemma_trim_len(Seq::<char>::empty());
        assert(tokens(Seq::<char>::empty()) =~= w.skip(i));
    }
}

/// Whether `k` is the mark of a key.
pub open spec fn is_key(k: Seq<char>) -> bool {
    k == "PK"@ || k == "FK"@ || k == "UK"@
}

/// An attribute as it is written.
pub open spec fn attribute_words(
    ty: Seq<char>,
    name: Seq<char>,
    keys: Seq<Seq<char>>,
    comment: Option<Seq<char>>,
) -> Seq<Seq<char>> {
    seq![ty, name] + keys + (match comment {
        Some(c) => seq![in_marks(c)],
        None => Seq::empty(),
    })
}

proof fn lemma_keys(
    ty: Seq<char>,
    name: Seq<char>,
    keys: Seq<Seq<char>>,
    comment: Option<Seq<char>>,
    n: int,
)
    requires
        0 <= n <= keys.len(),
        forall|i: int| 0 <= i < keys.len() ==> is_key(#[trigger] keys[i]),
    ensures
        er_extras(attribute_words(ty, name, keys, comment), n + 2) == Ok::<
            (Seq<Seq<char>>, Option<Seq<char>>),
            Seq<char>,
        >((keys.take(n), None)),
    decreases n,
{
    let w = attribute_words(ty, name, keys, comment);
    if n > 0 {
        lemma_keys(ty, name, keys, comment, n - 1);
        assert(w[n + 1] == keys[n - 1]);
        assert(is_key(keys[n - 1]));
        lemma_key_words(keys[n - 1]);
        assert(keys.take(n - 1).push(keys[n - 1]) =~= keys.take(n));
    } else {
        assert(keys.take(0) =~= Seq::<Seq<char>>::empty());
    }
}

proof fn lemma_key_words(k: Seq<char>)
    requires
        is_key(k),
    ensures
        is_word(k),
        !in_quotes(k),
{
    reveal_strlit("PK");
    reveal_strlit("FK");
    reveal_strlit("UK");
}

/// `type name PK FK "comment"` is read as the attribute with that type, that name, those
/// keys in their order, and the comment in full, where it has one.
pub proof fn law_written_er_attribute_is_read(
    ty: Seq<char>,
    name: Seq<char>,
    keys: Seq<Seq<char>>,
    comment: Option<Seq<char>>,
)
    requires
        is_word(ty),
        is_word(name),
        forall|i: int| 0 <= i < keys.len() ==> is_key(#[trigger] keys[i]),
        comment matches Some(c) ==> quotable(c),
    ensures
        er_attr(spaced(attribute_words(ty, name, keys, comment), 0)) == Ok::<
            ErAttributeView,
            Seq<char>,
        >(ErAttributeView { type_text: ty, name, keys, comment }),
{
    let w = attribute_words(ty, name, keys, comment);
    assert forall|k: int| 0 <= k < w.len() implies is_piece(#[trigger] w[k]) by {
        if k == 0 {
            assert(w[k] == ty);
        } else if k == 1 {
            assert(w[k] == name);
        } else if k < keys.len() + 2 {
            assert(w[k] == keys[k - 2]);
            lemma_key_words(keys[k - 2]);
        } else {
            assert(w[k] == in_marks(comment->0));
        }
    }
    lemma_pieces(w, 0);
    assert(w.skip(0) =~= w);
    let n = keys.len() as int;
    lemma_keys(ty, name, keys, comment, n);
    assert(keys.take(n) =~= keys);
    assert(w[0] == ty && w[1] == name);
    if let Some(c) = comment {
        let q = in_marks(c);
        assert(w[n + 2] == q);
        assert(q[0] == '"' && q[q.len() - 1] == '"');
        assert(in_quotes(q));
        assert(unquoted(q) =~= c);
    }
}

/// An attribute is added behind those that its entity has, and no other entity changes.
pub proof fn law_er_attribute_is_added(
    st: EntitiesView,
    i: int,
    t: Seq<char>,
    l: LineView,
    a: ErAttributeView,
)
    requires
        0 <= i < st.entities.len(),
        er_attr(t) == Ok::<ErAttributeView, Seq<char>>(a),
    ensures
        ({
            let after = attr_line(st, i, t, l);
            &&& after.errors == st.errors
            &&& after.relations == st.relations
            &&& after.entities.len() == st.entities.len()
            &&& forall|j: int|
                0 <= j < st.entities.len() && j != i ==> after.entities[j] == st.entities[j]
            &&& after.entities[i].id == st.entities[i].id
            &&& after.entities[i].name == st.entities[i].name
            &&& after.entities[i].attributes == st.entities[i].attributes.push(a)
        }),
{
}

/// A relation between two entities is added behind those that are there, and declares
/// its ends where they are not declared yet, the first one first. It changes no entity
/// that is.
pub proof fn law_er_relation_is_added(
    st: EntitiesView,
    t: Seq<char>,
    l: LineView,
    r: ErRelationView,
)
    requires
        er_relation(t) == Some(r),
        r.from != r.to,
    ensures
        ({
            let after = er_statement(st, t, l);
            &&& after.errors == st.errors
            &&& after.relations == st.relations.push(r)
            &&& st.entities.len() <= after.entities.len() <= st.entities.len() + 2
            &&& forall|i: int|
                0 <= i < st.entities.len() ==> after.entities[i] == st.entities[i]
            &&& !has_key(st.entities, r.from) ==> after.entities[st.entities.len() as int] == (
            ErEntityView { id: r.from, name: r.from, attributes: Seq::empty() })
        }),
{
}

// ---------------------------------------------------------------------------
// Participants
// ---------------------------------------------------------------------------

/// `X as Label` declares the participant `X` with the label in full, and `X` alone
/// declares it with its id as its label. One that is declared already stays as it is.
pub proof fn law_written_participant_is_read(
    st: SeqView,
    id: Seq<char>,
    label: Option<Seq<char>>,
    l: LineView,
)
    requires
        is_id(id),
        label matches Some(x) ==> is_label(x),
    ensures
        ({
            let text = match label {
                Some(x) => id + (" as "@ + x),
                None => id,
            };
            declare_participant(st, text, l) == (if has_key(st.participants, id) {
                st
            } else {
                SeqView {
                    participants: st.participants.push(
                        ParticipantView {
                            id,
                            label: match label {
                                Some(x) => x,
                                None => id,
                            },
                            kind: ParticipantKind::Default,
                        },
                    ),
                    ..st
                }
            })
        }),
{
    reveal_strlit(" as ");
    let n = id.len() as int;
    match label {
        Some(x) => {
            let t = id + (" as "@ + x);
            assert(t.subrange(n, n + 4) =~= " as "@);
            assert forall|k: int| 0 <= k < n implies !occurs_at(t, " as "@, k) by {
                if occurs_at(t, " as "@, k) {
                    assert(t.subrange(k, k + 4)[0] == t[k]);
                    assert(t[k] == id[k]);
                }
            }
            lemma_found_at(t, " as "@, 0, n);
            assert(t.take(n) =~= id);
            assert(t.skip(n + 4) =~= x);
            lemma_trim_same(id);
            lemma_trim_same(x);
        },
        None => {
            lemma_text_from(id, " as "@, 0);
            if let Some(k) = text_index(id, " as "@) {
                assert(id.subrange(k, k + 4)[0] == id[k]);
                assert(false);
            }
        },
    }
}

} // verus!
