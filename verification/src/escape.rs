//! Escaping text for the markup it is put into.
use crate::text::to_chars;
use vstd::prelude::*;

verus! {

/// What `f` makes of each character of `s`, one after another.
pub open spec fn mapped(s: Seq<char>, f: spec_fn(char) -> Seq<char>) -> Seq<char>
    decreases s.len(),
{
    if s.len() == 0 {
        Seq::empty()
    } else {
        mapped(s.drop_last(), f) + f(s.last())
    }
}

/// A character in XML attribute values delimited by `"` and in XML text.
pub open spec fn xml_char(c: char) -> Seq<char> {
    if c == '&' {
        "&amp;"@
    } else if c == '<' {
        "&lt;"@
    } else if c == '>' {
        "&gt;"@
    } else if c == '"' {
        "&quot;"@
    } else {
        seq![c]
    }
}

/// A character in XML attribute values and text, apostrophes escaped too.
pub open spec fn xml_apos_char(c: char) -> Seq<char> {
    if c == '\'' {
        "&apos;"@
    } else {
        xml_char(c)
    }
}

/// A character inside a double-quoted DOT string.
pub open spec fn dot_char(c: char) -> Seq<char> {
    if c == '\\' {
        "\\\\"@
    } else if c == '"' {
        "\\\""@
    } else if c == '\n' {
        "\\n"@
    } else {
        seq![c]
    }
}

/// A character inside a field of a DOT record label.
pub open spec fn record_char(c: char) -> Seq<char> {
    if c == '\\' {
        "\\\\"@
    } else if c == '{' {
        "\\{"@
    } else if c == '}' {
        "\\}"@
    } else if c == '|' {
        "\\|"@
    } else if c == '<' {
        "\\<"@
    } else if c == '>' {
        "\\>"@
    } else if c == '"' {
        "\\\""@
    } else if c == '\n' {
        "\\n"@
    } else {
        seq![c]
    }
}

/// `s` escaped for XML attribute values delimited by `"` and for XML text.
pub open spec fn xml_text(s: Seq<char>) -> Seq<char> {
    mapped(s, |c: char| xml_char(c))
}

/// `s` escaped for XML, apostrophes too.
pub open spec fn xml_apos_text(s: Seq<char>) -> Seq<char> {
    mapped(s, |c: char| xml_apos_char(c))
}

/// `s` escaped for a double-quoted DOT string.
pub open spec fn dot_text(s: Seq<char>) -> Seq<char> {
    mapped(s, |c: char| dot_char(c))
}

/// `s` as a double-quoted DOT string.
pub open spec fn dot_quoted(s: Seq<char>) -> Seq<char> {
    seq!['"'] + dot_text(s) + seq!['"']
}

/// `s` escaped for a field of a DOT record label.
pub open spec fn record_text(s: Seq<char>) -> Seq<char> {
    mapped(s, |c: char| record_char(c))
}

/// Escapes `& < > "`.
pub fn escape_xml(s: &str) -> (r: String)
    ensures
        r@ == xml_text(s@),
{
    let chars = to_chars(s);
    let mut out = String::new();
    let mut i: usize = 0;
    while i < chars.len()
        invariant
            i <= chars@.len(),
            out@ == xml_text(chars@.take(i as int)),
        decreases chars@.len() - i,
    {
        let c: char = chars[i];
        let ghost before = out@;
        match c {
            '&' => out.append("&amp;"),
            '<' => out.append("&lt;"),
            '>' => out.append("&gt;"),
            '"' => out.append("&quot;"),
            _ => out.push(c),
        }
        assert(chars@.take(i + 1).drop_last() =~= chars@.take(i as int));
        assert(before.push(c) =~= before + seq![c]);
        i = i + 1;
    }
    assert(chars@.take(chars@.len() as int) =~= chars@);
    out
}

/// Escapes `& < > " '`.
pub fn escape_xml_apos(s: &str) -> (r: String)
    ensures
        r@ == xml_apos_text(s@),
{
    let chars = to_chars(s);
    let mut out = String::new();
    let mut i: usize = 0;
    while i < chars.len()
        invariant
            i <= chars@.len(),
            out@ == xml_apos_text(chars@.take(i as int)),
        decreases chars@.len() - i,
    {
        let c: char = chars[i];
        let ghost before = out@;
        match c {
            '&' => out.append("&amp;"),
            '<' => out.append("&lt;"),
            '>' => out.append("&gt;"),
            '"' => out.append("&quot;"),
            '\'' => out.append("&apos;"),
            _ => out.push(c),
        }
        assert(chars@.take(i + 1).drop_last() =~= chars@.take(i as int));
        assert(before.push(c) =~= before + seq![c]);
        i = i + 1;
    }
    assert(chars@.take(chars@.len() as int) =~= chars@);
    out
}

/// Wraps `s` in double quotes, escaping backslash, double quote and line feed.
pub fn quote_dot(s: &str) -> (r: String)
    ensures
        r@ == dot_quoted(s@),
{
    let chars = to_chars(s);
    let mut out = String::new();
    out.push('"');
    let mut i: usize = 0;
    assert(out@ =~= seq!['"'] + dot_text(chars@.take(0)));
    while i < chars.len()
        invariant
            i <= chars@.len(),
            out@ == seq!['"'] + dot_text(chars@.take(i as int)),
        decreases chars@.len() - i,
    {
        let c: char = chars[i];
        let ghost before = out@;
        match c {
            '\\' => out.append("\\\\"),
            '"' => out.append("\\\""),
            '\n' => out.append("\\n"),
            _ => out.push(c),
        }
        assert(chars@.take(i + 1).drop_last() =~= chars@.take(i as int));
        assert(before.push(c) =~= before + seq![c]);
        assert(before + dot_char(c) =~= seq!['"'] + (dot_text(chars@.take(i as int)) + dot_char(
            c,
        )));
        i = i + 1;
    }
    assert(chars@.take(chars@.len() as int) =~= chars@);
    out.push('"');
    assert(out@ =~= dot_quoted(s@));
    out
}

/// Escapes the characters that mean something inside a DOT record label.
pub fn escape_record(s: &str) -> (r: String)
    ensures
        r@ == record_text(s@),
{
    let chars = to_chars(s);
    let mut out = String::new();
    let mut i: usize = 0;
    while i < chars.len()
        invariant
            i <= chars@.len(),
            out@ == record_text(chars@.take(i as int)),
        decreases chars@.len() - i,
    {
        let c: char = chars[i];
        let ghost before = out@;
        match c {
            '\\' => out.append("\\\\"),
            '{' => out.append("\\{"),
            '}' => out.append("\\}"),
            '|' => out.append("\\|"),
            '<' => out.append("\\<"),
            '>' => out.append("\\>"),
            '"' => out.append("\\\""),
            '\n' => out.append("\\n"),
            _ => out.push(c),
        }
        assert(chars@.take(i + 1).drop_last() =~= chars@.take(i as int));
        assert(before.push(c) =~= before + seq![c]);
        i = i + 1;
    }
    assert(chars@.take(chars@.len() as int) =~= chars@);
    out
}

// ---------------------------------------------------------------------------
// What escaped text holds
// ---------------------------------------------------------------------------

/// What holds of every character that `f` makes holds of the mapped text.
proof fn lemma_mapped_all(s: Seq<char>, f: spec_fn(char) -> Seq<char>, p: spec_fn(char) -> bool)
    requires
        forall|c: char, k: int| 0 <= k < f(c).len() ==> p(#[trigger] f(c)[k]),
    ensures
        forall|i: int| 0 <= i < mapped(s, f).len() ==> p(#[trigger] mapped(s, f)[i]),
    decreases s.len(),
{
    if s.len() > 0 {
        lemma_mapped_all(s.drop_last(), f, p);
        let a = mapped(s.drop_last(), f);
        let b = f(s.last());
        assert forall|i: int| 0 <= i < mapped(s, f).len() implies p(#[trigger] mapped(s, f)[i]) by {
            if i < a.len() {
                assert(mapped(s, f)[i] == a[i]);
            } else {
                assert(mapped(s, f)[i] == b[i - a.len()]);
            }
        }
    }
}

/// The codes that `f` gives are not empty, and none begins another.
spec fn prefix_code(f: spec_fn(char) -> Seq<char>) -> bool {
    &&& forall|c: char| (#[trigger] f(c)).len() > 0
    &&& forall|c: char, d: char|
        c != d ==> !((#[trigger] f(c)).len() <= (#[trigger] f(d)).len() && f(d).take(
            f(c).len() as int,
        ) == f(c))
}

proof fn lemma_mapped_first(s: Seq<char>, f: spec_fn(char) -> Seq<char>)
    requires
        s.len() > 0,
    ensures
        mapped(s, f) == f(s[0]) + mapped(s.drop_first(), f),
    decreases s.len(),
{
    if s.len() == 1 {
        assert(s.drop_last() =~= Seq::<char>::empty());
        assert(s.drop_first() =~= Seq::<char>::empty());
        assert(mapped(s, f) =~= f(s[0]) + mapped(s.drop_first(), f));
    } else {
        lemma_mapped_first(s.drop_last(), f);
        assert(s.drop_last().drop_first() =~= s.drop_first().drop_last());
        assert(s.drop_first().last() == s.last());
        assert(mapped(s, f) =~= f(s[0]) + mapped(s.drop_first(), f));
    }
}

/// Text mapped by a prefix code can be read back.
proof fn lemma_mapped_injective(a: Seq<char>, b: Seq<char>, f: spec_fn(char) -> Seq<char>)
    requires
        prefix_code(f),
        mapped(a, f) == mapped(b, f),
    ensures
        a == b,
    decreases a.len(),
{
    if a.len() == 0 {
        if b.len() > 0 {
            lemma_mapped_first(b, f);
            assert(f(b[0]).len() > 0);
        }
        assert(a =~= b);
    } else if b.len() == 0 {
        lemma_mapped_first(a, f);
        assert(f(a[0]).len() > 0);
    } else {
        lemma_mapped_first(a, f);
        lemma_mapped_first(b, f);
        let m = mapped(a, f);
        let ca = f(a[0]);
        let cb = f(b[0]);
        assert(m.take(ca.len() as int) =~= ca);
        assert(m.take(cb.len() as int) =~= cb);
        if a[0] != b[0] {
            if ca.len() <= cb.len() {
                assert(cb.take(ca.len() as int) =~= ca);
            } else {
                assert(ca.take(cb.len() as int) =~= cb);
            }
        }
        assert(mapped(a.drop_first(), f) =~= m.skip(ca.len() as int));
        assert(mapped(b.drop_first(), f) =~= m.skip(cb.len() as int));
        lemma_mapped_injective(a.drop_first(), b.drop_first(), f);
        assert(a =~= seq![a[0]] + a.drop_first());
        assert(b =~= seq![b[0]] + b.drop_first());
    }
}

proof fn lemma_entities()
    ensures
        "&amp;"@ == seq!['&', 'a', 'm', 'p', ';'],
        "&lt;"@ == seq!['&', 'l', 't', ';'],
        "&gt;"@ == seq!['&', 'g', 't', ';'],
        "&quot;"@ == seq!['&', 'q', 'u', 'o', 't', ';'],
        "&apos;"@ == seq!['&', 'a', 'p', 'o', 's', ';'],
{
    reveal_strlit("&amp;");
    reveal_strlit("&lt;");
    reveal_strlit("&gt;");
    reveal_strlit("&quot;");
    reveal_strlit("&apos;");
    assert("&amp;"@ =~= seq!['&', 'a', 'm', 'p', ';']);
    assert("&lt;"@ =~= seq!['&', 'l', 't', ';']);
    assert("&gt;"@ =~= seq!['&', 'g', 't', ';']);
    assert("&quot;"@ =~= seq!['&', 'q', 'u', 'o', 't', ';']);
    assert("&apos;"@ =~= seq!['&', 'a', 'p', 'o', 's', ';']);
}

proof fn lemma_backslashes()
    ensures
        "\\\\"@ == seq!['\\', '\\'],
        "\\\""@ == seq!['\\', '"'],
        "\\n"@ == seq!['\\', 'n'],
        "\\{"@ == seq!['\\', '{'],
        "\\}"@ == seq!['\\', '}'],
        "\\|"@ == seq!['\\', '|'],
        "\\<"@ == seq!['\\', '<'],
        "\\>"@ == seq!['\\', '>'],
{
    reveal_strlit("\\\\");
    reveal_strlit("\\\"");
    reveal_strlit("\\n");
    reveal_strlit("\\{");
    reveal_strlit("\\}");
    reveal_strlit("\\|");
    reveal_strlit("\\<");
    reveal_strlit("\\>");
    assert("\\\\"@ =~= seq!['\\', '\\']);
    assert("\\\""@ =~= seq!['\\', '"']);
    assert("\\n"@ =~= seq!['\\', 'n']);
    assert("\\{"@ =~= seq!['\\', '{']);
    assert("\\}"@ =~= seq!['\\', '}']);
    assert("\\|"@ =~= seq!['\\', '|']);
    assert("\\<"@ =~= seq!['\\', '<']);
    assert("\\>"@ =~= seq!['\\', '>']);
}

/// Escaped XML text holds no `<`, `>` or `"`, so it cannot leave the attribute
/// or element that it is put into.
pub proof fn law_xml_text_is_contained(s: Seq<char>)
    ensures
        forall|i: int|
            0 <= i < xml_text(s).len() ==> (#[trigger] xml_text(s)[i]) != '<' && xml_text(s)[i]
                != '>' && xml_text(s)[i] != '"',
{
    lemma_entities();
    lemma_mapped_all(s, |c: char| xml_char(c), |c: char| c != '<' && c != '>' && c != '"');
}

/// As [`law_xml_text_is_contained`], with apostrophes escaped too.
pub proof fn law_xml_apos_text_is_contained(s: Seq<char>)
    ensures
        forall|i: int|
            0 <= i < xml_apos_text(s).len() ==> (#[trigger] xml_apos_text(s)[i]) != '<'
                && xml_apos_text(s)[i] != '>' && xml_apos_text(s)[i] != '"' && xml_apos_text(s)[i]
                != '\'',
{
    lemma_entities();
    lemma_mapped_all(
        s,
        |c: char| xml_apos_char(c),
        |c: char| c != '<' && c != '>' && c != '"' && c != '\'',
    );
}

/// No two texts have the same XML form.
pub proof fn law_xml_text_is_injective(a: Seq<char>, b: Seq<char>)
    requires
        xml_text(a) == xml_text(b),
    ensures
        a == b,
{
    lemma_entities();
    let f = |c: char| xml_char(c);
    assert forall|c: char, d: char| c != d implies !((#[trigger] f(c)).len() <= (#[trigger] f(
        d,
    )).len() && f(d).take(f(c).len() as int) == f(c)) by {
        lemma_xml_codes(c, d);
    }
    lemma_mapped_injective(a, b, f);
}

/// No two texts have the same XML form with apostrophes escaped.
pub proof fn law_xml_apos_text_is_injective(a: Seq<char>, b: Seq<char>)
    requires
        xml_apos_text(a) == xml_apos_text(b),
    ensures
        a == b,
{
    lemma_entities();
    let f = |c: char| xml_apos_char(c);
    assert forall|c: char, d: char| c != d implies !((#[trigger] f(c)).len() <= (#[trigger] f(
        d,
    )).len() && f(d).take(f(c).len() as int) == f(c)) by {
        lemma_xml_codes(c, d);
    }
    lemma_mapped_injective(a, b, f);
}

proof fn lemma_xml_codes(c: char, d: char)
    requires
        c != d,
    ensures
        !(xml_char(c).len() <= xml_char(d).len() && xml_char(d).take(xml_char(c).len() as int)
            == xml_char(c)),
        !(xml_apos_char(c).len() <= xml_apos_char(d).len() && xml_apos_char(d).take(
            xml_apos_char(c).len() as int,
        ) == xml_apos_char(c)),
{
    lemma_entities();
    let x = xml_char(d).take(xml_char(c).len() as int);
    if xml_char(c).len() <= xml_char(d).len() && x == xml_char(c) {
        assert(x[0] == xml_char(d)[0]);
        assert(xml_char(c)[0] == '&');
        assert(x[1] == xml_char(d)[1]);
        assert(x[2] == xml_char(d)[2]);
    }
    let y = xml_apos_char(d).take(xml_apos_char(c).len() as int);
    if xml_apos_char(c).len() <= xml_apos_char(d).len() && y == xml_apos_char(c) {
        assert(y[0] == xml_apos_char(d)[0]);
        assert(xml_apos_char(c)[0] == '&');
        assert(y[1] == xml_apos_char(d)[1]);
        assert(y[2] == xml_apos_char(d)[2]);
    }
}

/// A DOT string holds no line feed, and no two texts have the same DOT string.
pub proof fn law_dot_quoted(a: Seq<char>, b: Seq<char>)
    ensures
        forall|i: int| 0 <= i < dot_text(a).len() ==> (#[trigger] dot_text(a)[i]) != '\n',
        dot_quoted(a) == dot_quoted(b) ==> a == b,
{
    lemma_backslashes();
    let f = |c: char| dot_char(c);
    lemma_mapped_all(a, f, |c: char| c != '\n');
    if dot_quoted(a) == dot_quoted(b) {
        assert(dot_text(a) =~= dot_quoted(a).subrange(1, dot_quoted(a).len() - 1));
        assert(dot_text(b) =~= dot_quoted(b).subrange(1, dot_quoted(b).len() - 1));
        assert forall|c: char, d: char| c != d implies !((#[trigger] f(c)).len() <= (#[trigger] f(
            d,
        )).len() && f(d).take(f(c).len() as int) == f(c)) by {
            let x = f(d).take(f(c).len() as int);
            if f(c).len() <= f(d).len() && x == f(c) {
                assert(x[0] == f(d)[0]);
                assert(f(c)[0] == '\\');
                assert(x[1] == f(d)[1]);
            }
        }
        lemma_mapped_injective(a, b, f);
    }
}

/// A record field holds no line feed, and no two texts have the same field.
pub proof fn law_record_text(a: Seq<char>, b: Seq<char>)
    ensures
        forall|i: int| 0 <= i < record_text(a).len() ==> (#[trigger] record_text(a)[i]) != '\n',
        record_text(a) == record_text(b) ==> a == b,
{
    lemma_backslashes();
    let f = |c: char| record_char(c);
    lemma_mapped_all(a, f, |c: char| c != '\n');
    if record_text(a) == record_text(b) {
        assert forall|c: char, d: char| c != d implies !((#[trigger] f(c)).len() <= (#[trigger] f(
            d,
        )).len() && f(d).take(f(c).len() as int) == f(c)) by {
            let x = f(d).take(f(c).len() as int);
            if f(c).len() <= f(d).len() && x == f(c) {
                assert(x[0] == f(d)[0]);
                assert(f(c)[0] == '\\');
                assert(x[1] == f(d)[1]);
            }
        }
        lemma_mapped_injective(a, b, f);
    }
}

/// Whether the character at `i` is escaped: an odd run of backslashes stands
/// directly before it.
pub open spec fn escaped_at(s: Seq<char>, i: int) -> bool
    decreases i,
{
    0 < i <= s.len() && s[i - 1] == '\\' && !escaped_at(s, i - 1)
}

/// In a DOT string every character that would end it is escaped, and the text as
/// a whole leaves nothing escaped behind it.
pub proof fn law_dot_text_is_contained(s: Seq<char>)
    ensures
        forall|i: int|
            0 <= i < dot_text(s).len() && (#[trigger] dot_text(s)[i]) == '"' ==> escaped_at(
                dot_text(s),
                i,
            ),
        !escaped_at(dot_text(s), dot_text(s).len() as int),
    decreases s.len(),
{
    lemma_backslashes();
    if s.len() > 0 {
        let f = |c: char| dot_char(c);
        law_dot_text_is_contained(s.drop_last());
        let a = dot_text(s.drop_last());
        let b = dot_char(s.last());
        let m = dot_text(s);
        assert(m == a + b);
        lemma_escaped_concat(a, b);
        assert forall|i: int| 0 <= i < m.len() && (#[trigger] m[i]) == '"' implies escaped_at(
            m,
            i,
        ) by {
            if i < a.len() {
                assert(m[i] == a[i]);
            } else {
                assert(m[i] == b[i - a.len()]);
                assert(escaped_at(m, a.len() as int) == false);
                assert(m[i - 1] == '\\');
                assert(i == a.len() + 1);
            }
        }
        assert(escaped_at(m, a.len() as int) == false);
        assert(m[a.len() as int] == b[0]);
        if b.len() == 2 {
            assert(m[a.len() as int + 1] == b[1]);
            assert(escaped_at(m, a.len() as int + 1));
        }
    }
}

/// Whether a character means something in a DOT record label.
pub open spec fn structural(c: char) -> bool {
    c == '{' || c == '}' || c == '|' || c == '<' || c == '>' || c == '"'
}

/// In a field of a DOT record label every character that would mean something
/// there is escaped, and the text as a whole leaves nothing escaped behind it.
pub proof fn law_record_text_is_contained(s: Seq<char>)
    ensures
        forall|i: int|
            0 <= i < record_text(s).len() && structural(#[trigger] record_text(s)[i])
                ==> escaped_at(record_text(s), i),
        !escaped_at(record_text(s), record_text(s).len() as int),
    decreases s.len(),
{
    lemma_backslashes();
    if s.len() > 0 {
        law_record_text_is_contained(s.drop_last());
        let a = record_text(s.drop_last());
        let b = record_char(s.last());
        let m = record_text(s);
        assert(m == a + b);
        lemma_escaped_concat(a, b);
        assert forall|i: int| 0 <= i < m.len() && structural(#[trigger] m[i]) implies escaped_at(
            m,
            i,
        ) by {
            if i < a.len() {
                assert(m[i] == a[i]);
            } else {
                assert(m[i] == b[i - a.len()]);
                assert(escaped_at(m, a.len() as int) == false);
                assert(m[i - 1] == '\\');
                assert(i == a.len() + 1);
            }
        }
        assert(escaped_at(m, a.len() as int) == false);
        assert(m[a.len() as int] == b[0]);
        if b.len() == 2 {
            assert(m[a.len() as int + 1] == b[1]);
            assert(escaped_at(m, a.len() as int + 1));
        }
    }
}

/// Whether a character of `a` is escaped does not depend on what follows.
proof fn lemma_escaped_concat(a: Seq<char>, b: Seq<char>)
    ensures
        forall|i: int|
            0 <= i <= a.len() ==> #[trigger] escaped_at(a + b, i) == escaped_at(a, i),
{
    assert forall|i: int| 0 <= i <= a.len() implies #[trigger] escaped_at(a + b, i) == escaped_at(
        a,
        i,
    ) by {
        lemma_escaped_prefix(a, b, i);
    }
}

proof fn lemma_escaped_prefix(a: Seq<char>, b: Seq<char>, i: int)
    requires
        0 <= i <= a.len(),
    ensures
        escaped_at(a + b, i) == escaped_at(a, i),
    decreases i,
{
    if i > 0 {
        lemma_escaped_prefix(a, b, i - 1);
    }
}

proof fn lemma_mapped_parts(a: Seq<char>, b: Seq<char>, f: spec_fn(char) -> Seq<char>)
    ensures
        mapped(a + b, f) == mapped(a, f) + mapped(b, f),
    decreases b.len(),
{
    if b.len() == 0 {
        assert(a + b =~= a);
        assert(mapped(a, f) + mapped(b, f) =~= mapped(a, f));
    } else {
        lemma_mapped_parts(a, b.drop_last(), f);
        assert((a + b).drop_last() =~= a + b.drop_last());
        assert((a + b).last() == b.last());
        assert(mapped(a, f) + mapped(b.drop_last(), f) + f(b.last()) =~= mapped(a, f) + (mapped(
            b.drop_last(),
            f,
        ) + f(b.last())));
    }
}

proof fn lemma_mapped_one(c: char, f: spec_fn(char) -> Seq<char>)
    ensures
        mapped(seq![c], f) == f(c),
        mapped(Seq::empty(), f) == Seq::<char>::empty(),
{
    let s = seq![c];
    assert(s.drop_last() =~= Seq::<char>::empty());
    assert(mapped(s.drop_last(), f) =~= Seq::<char>::empty());
    assert(Seq::<char>::empty() + f(c) =~= f(c));
}

/// XML text is escaped character by character: `&`, `<`, `>` and `"` become their
/// entities, and any other character stays as it is.
pub proof fn law_xml_text_is_by_character(a: Seq<char>, b: Seq<char>, c: char)
    ensures
        xml_text(Seq::empty()) == Seq::<char>::empty(),
        xml_text(a + b) == xml_text(a) + xml_text(b),
        xml_text(seq!['&']) == seq!['&', 'a', 'm', 'p', ';'],
        xml_text(seq!['<']) == seq!['&', 'l', 't', ';'],
        xml_text(seq!['>']) == seq!['&', 'g', 't', ';'],
        xml_text(seq!['"']) == seq!['&', 'q', 'u', 'o', 't', ';'],
        c != '&' && c != '<' && c != '>' && c != '"' ==> xml_text(seq![c]) == seq![c],
{
    reveal_strlit("&amp;");
    reveal_strlit("&lt;");
    reveal_strlit("&gt;");
    reveal_strlit("&quot;");
    let f = |c: char| xml_char(c);
    lemma_mapped_parts(a, b, f);
    lemma_mapped_one('&', f);
    lemma_mapped_one('<', f);
    lemma_mapped_one('>', f);
    lemma_mapped_one('"', f);
    lemma_mapped_one(c, f);
    assert("&amp;"@ =~= seq!['&', 'a', 'm', 'p', ';']);
    assert("&lt;"@ =~= seq!['&', 'l', 't', ';']);
    assert("&gt;"@ =~= seq!['&', 'g', 't', ';']);
    assert("&quot;"@ =~= seq!['&', 'q', 'u', 'o', 't', ';']);
}

/// As [`law_xml_text_is_by_character`], and an apostrophe becomes its entity too.
pub proof fn law_xml_apos_text_is_by_character(a: Seq<char>, b: Seq<char>, c: char)
    ensures
        xml_apos_text(Seq::empty()) == Seq::<char>::empty(),
        xml_apos_text(a + b) == xml_apos_text(a) + xml_apos_text(b),
        xml_apos_text(seq!['\'']) == seq!['&', 'a', 'p', 'o', 's', ';'],
        c != '\'' ==> xml_apos_text(seq![c]) == xml_text(seq![c]),
{
    reveal_strlit("&apos;");
    let f = |c: char| xml_apos_char(c);
    lemma_mapped_parts(a, b, f);
    lemma_mapped_one('\'', f);
    lemma_mapped_one(c, f);
    lemma_mapped_one(c, |c: char| xml_char(c));
    assert("&apos;"@ =~= seq!['&', 'a', 'p', 'o', 's', ';']);
}

/// A DOT string is escaped character by character: a backslash stands before a backslash
/// and before a quote, a line feed becomes `\n`, and any other character stays as it is.
pub proof fn law_dot_text_is_by_character(a: Seq<char>, b: Seq<char>, c: char)
    ensures
        dot_text(Seq::empty()) == Seq::<char>::empty(),
        dot_text(a + b) == dot_text(a) + dot_text(b),
        dot_text(seq!['\\']) == seq!['\\', '\\'],
        dot_text(seq!['"']) == seq!['\\', '"'],
        dot_text(seq!['\n']) == seq!['\\', 'n'],
        c != '\\' && c != '"' && c != '\n' ==> dot_text(seq![c]) == seq![c],
{
    lemma_backslashes();
    let f = |c: char| dot_char(c);
    lemma_mapped_parts(a, b, f);
    lemma_mapped_one('\\', f);
    lemma_mapped_one('"', f);
    lemma_mapped_one('\n', f);
    lemma_mapped_one(c, f);
}

/// A field of a record is escaped character by character: a backslash stands before a
/// backslash and before every character that means something there, a line feed becomes
/// `\n`, and any other character stays as it is.
pub proof fn law_record_text_is_by_character(a: Seq<char>, b: Seq<char>, c: char)
    ensures
        record_text(Seq::empty()) == Seq::<char>::empty(),
        record_text(a + b) == record_text(a) + record_text(b),
        structural(c) || c == '\\' ==> record_text(seq![c]) == seq!['\\', c],
        record_text(seq!['\n']) == seq!['\\', 'n'],
        !structural(c) && c != '\\' && c != '\n' ==> record_text(seq![c]) == seq![c],
{
    lemma_backslashes();
    let f = |c: char| record_char(c);
    lemma_mapped_parts(a, b, f);
    lemma_mapped_one('\n', f);
    lemma_mapped_one(c, f);
}

} // verus!
