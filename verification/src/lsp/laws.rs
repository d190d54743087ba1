//! What an editor is told.
use crate::ir::{
    key_from, lemma_key_from, DiagramView, GraphDiagramView, Named, SequenceDiagramView,
};
use crate::lsp::{
    ends_any_case, hover_text, identifier, language_of_extension, word_begin, word_char,
    word_stop, Language,
};
use crate::offsets::byte_len;
use crate::position::{law_offset_is_boundary, SpanUnit};
use crate::text::{upper, upper_char};
use vstd::prelude::*;

verus! {

// ---------------------------------------------------------------------------
// Languages
// ---------------------------------------------------------------------------

/// A path does not end with what differs from its end in the character at `k` from the
/// end.
proof fn lemma_other_end(s: Seq<char>, suffix: Seq<char>, k: int)
    requires
        1 <= k <= s.len(),
        k <= suffix.len(),
        upper_char(s[s.len() - k]) != upper_char(suffix[suffix.len() - k]),
    ensures
        !ends_any_case(s, suffix),
{
    if ends_any_case(s, suffix) {
        let e = s.skip(s.len() - suffix.len());
        let i = suffix.len() - k;
        assert(upper(e)[i] == upper_char(e[i]));
        assert(upper(suffix)[i] == upper_char(suffix[i]));
        assert(e[i] == s[s.len() - k]);
    }
}

/// A path ends with what it is made of, whatever the case.
proof fn lemma_own_end(stem: Seq<char>, end: Seq<char>, suffix: Seq<char>)
    requires
        upper(end) == upper(suffix),
        end.len() == suffix.len(),
    ensures
        ends_any_case(stem + end, suffix),
{
    let s = stem + end;
    assert(s.skip(s.len() - suffix.len()) =~= end);
}

/// A path with the extension `.kozue` or `.kzd`, in any mix of upper and lower case, is
/// one of kozue's own language.
pub proof fn law_kozue_extensions(stem: Seq<char>, end: Seq<char>)
    requires
        upper(end) == upper(".kozue"@) || upper(end) == upper(".kzd"@),
    ensures
        language_of_extension(stem + end) == Some(Language::Kozue),
{
    if upper(end) == upper(".kozue"@) {
        assert(upper(end).len() == upper(".kozue"@).len());
        lemma_own_end(stem, end, ".kozue"@);
    } else {
        assert(upper(end).len() == upper(".kzd"@).len());
        lemma_own_end(stem, end, ".kzd"@);
    }
}

/// A path with the extension `.mmd` or `.mermaid`, in any mix of upper and lower case,
/// is one of Mermaid.
pub proof fn law_mermaid_extensions(stem: Seq<char>, end: Seq<char>)
    requires
        upper(end) == upper(".mmd"@) || upper(end) == upper(".mermaid"@),
    ensures
        language_of_extension(stem + end) == Some(Language::Mermaid),
{
    reveal_strlit(".kozue");
    reveal_strlit(".kzd");
    reveal_strlit(".mmd");
    reveal_strlit(".mermaid");
    let s = stem + end;
    if upper(end) == upper(".mmd"@) {
        assert(upper(end).len() == upper(".mmd"@).len());
        lemma_own_end(stem, end, ".mmd"@);
        assert(upper(end)[3] == upper_char('d') && upper(end)[2] == upper_char('m')) by {
            assert(upper(".mmd"@)[3] == upper_char('d') && upper(".mmd"@)[2] == upper_char('m'));
        }
        assert(s[s.len() - 1] == end[3] && s[s.len() - 2] == end[2]);
        assert(upper(end)[3] == upper_char(end[3]) && upper(end)[2] == upper_char(end[2]));
    } else {
        assert(upper(end).len() == upper(".mermaid"@).len());
        lemma_own_end(stem, end, ".mermaid"@);
        assert(upper(end)[7] == upper_char('d') && upper(end)[6] == upper_char('i')) by {
            assert(upper(".mermaid"@)[7] == upper_char('d') && upper(".mermaid"@)[6] == upper_char(
                'i',
            ));
        }
        assert(s[s.len() - 1] == end[7] && s[s.len() - 2] == end[6]);
        assert(upper(end)[7] == upper_char(end[7]) && upper(end)[6] == upper_char(end[6]));
    }
    lemma_other_end(s, ".kozue"@, 1);
    lemma_other_end(s, ".kzd"@, 2);
}

/// A path with the extension `.puml`, `.plantuml`, `.pu` or `.iuml`, in any mix of upper
/// and lower case, is one of PlantUML.
pub proof fn law_plantuml_extensions(stem: Seq<char>, end: Seq<char>)
    requires
        upper(end) == upper(".puml"@) || upper(end) == upper(".plantuml"@) || upper(end) == upper(
            ".pu"@,
        ) || upper(end) == upper(".iuml"@),
    ensures
        language_of_extension(stem + end) == Some(Language::Plantuml),
{
    reveal_strlit(".kozue");
    reveal_strlit(".kzd");
    reveal_strlit(".mmd");
    reveal_strlit(".mermaid");
    reveal_strlit(".puml");
    reveal_strlit(".plantuml");
    reveal_strlit(".pu");
    reveal_strlit(".iuml");
    let s = stem + end;
    let n = end.len() as int;
    assert(upper(end).len() == n);
    if upper(end) == upper(".puml"@) {
        lemma_own_end(stem, end, ".puml"@);
        assert(upper(".puml"@)[4] == upper_char('l'));
        assert(n == 5);
    } else if upper(end) == upper(".plantuml"@) {
        lemma_own_end(stem, end, ".plantuml"@);
        assert(upper(".plantuml"@)[8] == upper_char('l'));
        assert(n == 9);
    } else if upper(end) == upper(".pu"@) {
        lemma_own_end(stem, end, ".pu"@);
        assert(upper(".pu"@)[2] == upper_char('u'));
        assert(n == 3);
    } else {
        lemma_own_end(stem, end, ".iuml"@);
        assert(upper(".iuml"@)[4] == upper_char('l'));
        assert(n == 5);
    }
    assert(upper(end)[n - 1] == upper_char(end[n - 1]));
    assert(s[s.len() - 1] == end[n - 1]);
    lemma_other_end(s, ".kozue"@, 1);
    lemma_other_end(s, ".kzd"@, 1);
    lemma_other_end(s, ".mmd"@, 1);
    lemma_other_end(s, ".mermaid"@, 1);
}

// ---------------------------------------------------------------------------
// Hovers
// ---------------------------------------------------------------------------

/// Whether `s` has an identifier from `a` to `b` that is no part of a longer one.
pub open spec fn is_whole_word(s: Seq<char>, a: int, b: int) -> bool {
    &&& 0 <= a < b <= s.len()
    &&& forall|i: int| a <= i < b ==> word_char(#[trigger] s[i])
    &&& a == 0 || !word_char(s[a - 1])
    &&& b == s.len() || !word_char(s[b])
}

proof fn lemma_begin(s: Seq<char>, k: int)
    requires
        0 <= k <= s.len(),
    ensures
        0 <= word_begin(s, k) <= k,
        forall|i: int| word_begin(s, k) <= i < k ==> word_char(#[trigger] s[i]),
        word_begin(s, k) == 0 || !word_char(s[word_begin(s, k) - 1]),
    decreases k,
{
    if 0 < k && word_char(s[k - 1]) {
        lemma_begin(s, k - 1);
    }
}

proof fn lemma_stop(s: Seq<char>, k: int)
    requires
        0 <= k <= s.len(),
    ensures
        k <= word_stop(s, k) <= s.len(),
        forall|i: int| k <= i < word_stop(s, k) ==> word_char(#[trigger] s[i]),
        word_stop(s, k) == s.len() || !word_char(s[word_stop(s, k)]),
    decreases s.len() - k,
{
    if k < s.len() && word_char(s[k]) {
        lemma_stop(s, k + 1);
    }
}

/// Whether `r` is the identifier from `a` to `b`: its bytes and its text.
pub open spec fn is_found(
    r: Option<(int, int, Seq<char>)>,
    s: Seq<char>,
    a: int,
    b: int,
) -> bool {
    r == Some((byte_len(s.take(a)) as int, byte_len(s.take(b)) as int, s.subrange(a, b)))
}

/// The identifier at the start of a character is the longest run of letters, digits and
/// underscores around it; there is none exactly where the character is none of these.
pub proof fn law_identifier_is_whole(s: Seq<char>, k: int)
    requires
        0 <= k < s.len(),
    ensures
        ({
            let byte = byte_len(s.take(k)) as int;
            let letter = 'a' <= s[k] <= 'z' || 'A' <= s[k] <= 'Z' || '0' <= s[k] <= '9' || s[k]
                == '_';
            &&& identifier(s, byte) is Some <==> letter
            &&& letter ==> exists|a: int, b: int|
                a <= k < b && is_whole_word(s, a, b) && #[trigger] is_found(
                    identifier(s, byte),
                    s,
                    a,
                    b,
                )
        }),
{
    let byte = byte_len(s.take(k)) as int;
    law_offset_is_boundary(s, byte, SpanUnit::Byte);
    lemma_begin(s, k);
    lemma_stop(s, k);
    if word_char(s[k]) {
        let a = word_begin(s, k);
        let b = word_stop(s, k);
        assert(b > k) by {
            lemma_stop(s, k + 1);
        }
        assert(is_found(identifier(s, byte), s, a, b));
        assert(is_whole_word(s, a, b));
    }
}

/// A hover over the id of a node shows the id and the label of the first node with it.
pub proof fn law_hover_shows_a_node(g: GraphDiagramView, i: int)
    requires
        0 <= i < g.nodes.len(),
        forall|j: int| 0 <= j < i ==> g.nodes[j].id != g.nodes[i].id,
    ensures
        hover_text(DiagramView::Graph(g), g.nodes[i].id) == Some(
            "**node** `"@ + g.nodes[i].id + "`\n\nLabel: "@ + g.nodes[i].label,
        ),
{
    lemma_first_key(g.nodes, g.nodes[i].id, 0, i);
}

/// A hover over the id of a participant shows the id and the label of the first
/// participant with it.
pub proof fn law_hover_shows_a_participant(s: SequenceDiagramView, i: int)
    requires
        0 <= i < s.participants.len(),
        forall|j: int| 0 <= j < i ==> s.participants[j].id != s.participants[i].id,
    ensures
        hover_text(DiagramView::Sequence(s), s.participants[i].id) == Some(
            "**participant** `"@ + s.participants[i].id + "`\n\nLabel: "@ + s.participants[i].label,
        ),
{
    lemma_first_key(s.participants, s.participants[i].id, 0, i);
}

/// A hover over a word that is no id of a node or of a participant shows nothing.
pub proof fn law_hover_shows_nothing_else(d: DiagramView, word: Seq<char>)
    requires
        d matches DiagramView::Graph(g) ==> forall|i: int|
            0 <= i < g.nodes.len() ==> g.nodes[i].id != word,
        d matches DiagramView::Sequence(s) ==> forall|i: int|
            0 <= i < s.participants.len() ==> s.participants[i].id != word,
    ensures
        hover_text(d, word) is None,
{
    match d {
        DiagramView::Graph(g) => {
            lemma_key_from(g.nodes, word, 0);
        },
        DiagramView::Sequence(s) => {
            lemma_key_from(s.participants, word, 0);
        },
        _ => {},
    }
}

/// The first item with an id is the one that is found.
proof fn lemma_first_key<M: Named>(s: Seq<M>, id: Seq<char>, i: int, k: int)
    requires
        0 <= i <= k < s.len(),
        s[k].key() == id,
        forall|j: int| i <= j < k ==> s[j].key() != id,
    ensures
        key_from(s, id, i) == Some(k),
    decreases k - i,
{
    if i < k {
        lemma_first_key(s, id, i + 1, k);
    }
}

} // verus!
