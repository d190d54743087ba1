//! Texts that stand in other texts.
use vstd::prelude::*;

verus! {

/// `p` between `a` and `b`.
pub open spec fn framed(a: Seq<char>, p: Seq<char>, b: Seq<char>) -> Seq<char> {
    a + p + b
}

/// Whether `p` stands somewhere in `s`.
pub open spec fn holds(s: Seq<char>, p: Seq<char>) -> bool {
    exists|a: Seq<char>, b: Seq<char>| s == #[trigger] framed(a, p, b)
}

/// Whether `s` begins with `p`.
pub open spec fn starts(s: Seq<char>, p: Seq<char>) -> bool {
    exists|b: Seq<char>| s == #[trigger] framed(Seq::empty(), p, b)
}

/// A text between two others stands in the whole.
pub proof fn lemma_holds(s: Seq<char>, a: Seq<char>, p: Seq<char>, b: Seq<char>)
    requires
        s == a + p + b,
    ensures
        holds(s, p),
{
    assert(s == framed(a, p, b));
}

/// What stands in a part stands in the whole.
pub proof fn lemma_holds_trans(s: Seq<char>, q: Seq<char>, p: Seq<char>)
    requires
        holds(s, q),
        holds(q, p),
    ensures
        holds(s, p),
{
    let (a, b) = choose|a: Seq<char>, b: Seq<char>| s == #[trigger] framed(a, q, b);
    let (c, d) = choose|a: Seq<char>, b: Seq<char>| q == #[trigger] framed(a, p, b);
    assert(s =~= framed(a + c, p, d + b));
}

/// What stands in a text stands in it when more follows.
pub proof fn lemma_holds_more(s: Seq<char>, p: Seq<char>, more: Seq<char>)
    requires
        holds(s, p),
    ensures
        holds(s + more, p),
{
    assert(s + more =~= framed(Seq::empty(), s, more));
    lemma_holds_trans(s + more, s, p);
}

/// What stands in the start of a text stands in the text.
pub proof fn lemma_starts_holds(s: Seq<char>, q: Seq<char>, p: Seq<char>)
    requires
        starts(s, q),
        holds(q, p),
    ensures
        holds(s, p),
{
    let b = choose|b: Seq<char>| s == #[trigger] framed(Seq::empty(), q, b);
    lemma_holds(s, Seq::empty(), q, b);
    lemma_holds_trans(s, q, p);
}

/// A text begins with what its start begins with.
pub proof fn lemma_starts_more(s: Seq<char>, p: Seq<char>, more: Seq<char>)
    requires
        starts(s, p + more),
    ensures
        starts(s, p),
        holds(s, more),
{
    let b = choose|b: Seq<char>| s == #[trigger] framed(Seq::empty(), p + more, b);
    assert(s =~= framed(Seq::empty(), p, more + b));
    assert(s =~= framed(p, more, b));
}

/// A text begins with the start of its start.
pub proof fn lemma_starts_trans(s: Seq<char>, q: Seq<char>, p: Seq<char>)
    requires
        starts(s, q),
        starts(q, p),
    ensures
        starts(s, p),
{
    let b = choose|b: Seq<char>| s == #[trigger] framed(Seq::empty(), q, b);
    let d = choose|b: Seq<char>| q == #[trigger] framed(Seq::empty(), p, b);
    assert(s =~= framed(Seq::empty(), p, d + b));
}

/// A text keeps its start when more follows.
pub proof fn lemma_starts_more_of(s: Seq<char>, p: Seq<char>, more: Seq<char>)
    requires
        starts(s, p),
    ensures
        starts(s + more, p),
{
    lemma_starts_self(s, more);
    lemma_starts_trans(s + more, s, p);
}

/// A text begins with itself.
pub proof fn lemma_starts_self(p: Seq<char>, more: Seq<char>)
    ensures
        starts(p, p),
        starts(p + more, p),
{
    assert(p =~= framed(Seq::empty(), p, Seq::empty()));
    assert(p + more =~= framed(Seq::empty(), p, more));
}

} // verus!
