//! Text as a sequence of characters: classification, trimming, searching and
//! splitting, each stated over `Seq<char>` and computed on `&[char]`.
use vstd::prelude::*;
use vstd::slice::slice_subrange;

verus! {

// ---------------------------------------------------------------------------
// Models of collections
// ---------------------------------------------------------------------------

/// The views of the items of a sequence, in order.
pub open spec fn views<T: View>(s: Seq<T>) -> Seq<T::V> {
    Seq::new(s.len(), |i: int| s[i]@)
}

/// The view of the value inside an option.
pub open spec fn opt_view<T: View>(o: Option<T>) -> Option<T::V> {
    match o {
        Some(x) => Some(x@),
        None => None,
    }
}

pub broadcast proof fn lemma_views_push<T: View>(s: Seq<T>, x: T)
    ensures
        #[trigger] views(s.push(x)) == views(s).push(x@),
{
    assert(views(s.push(x)) =~= views(s).push(x@));
}

pub proof fn lemma_views_subrange<T: View>(s: Seq<T>, a: int, b: int)
    requires
        0 <= a <= b <= s.len(),
    ensures
        views(s.subrange(a, b)) == views(s).subrange(a, b),
{
    assert(views(s.subrange(a, b)) =~= views(s).subrange(a, b));
}

pub broadcast proof fn lemma_views_update<T: View>(s: Seq<T>, i: int, x: T)
    requires
        0 <= i < s.len(),
    ensures
        #[trigger] views(s.update(i, x)) == views(s).update(i, x@),
{
    assert(views(s.update(i, x)) =~= views(s).update(i, x@));
}

// ---------------------------------------------------------------------------
// Trusted: characters and strings of the standard library
// ---------------------------------------------------------------------------

/// What `char::is_alphanumeric` answers: the Unicode properties Alphabetic,
/// Nd, Nl and No, which only the standard library's tables hold.
pub uninterp spec fn alphanumeric(c: char) -> bool;

/// Trusted: `char::is_alphanumeric` depends on the character alone. Of the ASCII
/// characters, the letters and the digits are alphanumeric.
#[verifier::external_body]
pub(crate) fn is_alphanumeric(c: char) -> (r: bool)
    ensures
        r == alphanumeric(c),
        c <= '\u{7f}' ==> r == ('a' <= c <= 'z' || 'A' <= c <= 'Z' || '0' <= c <= '9'),
{
    c.is_alphanumeric()
}

/// Trusted: `String::push` appends one character.
pub assume_specification[ String::push ](s: &mut String, c: char)
    ensures
        final(s)@ == old(s)@.push(c),
;

// ---------------------------------------------------------------------------
// Character classes
// ---------------------------------------------------------------------------

/// The characters with Unicode's White_Space property.
pub open spec fn white_space(c: char) -> bool {
    let u = c as int;
    ||| 9 <= u <= 13
    ||| u == 0x20
    ||| u == 0x85
    ||| u == 0xA0
    ||| u == 0x1680
    ||| 0x2000 <= u <= 0x200A
    ||| u == 0x2028
    ||| u == 0x2029
    ||| u == 0x202F
    ||| u == 0x205F
    ||| u == 0x3000
}

/// Whether `c` has Unicode's White_Space property.
pub fn is_white_space(c: char) -> (r: bool)
    ensures
        r == white_space(c),
{
    let u: u32 = c as u32;
    (9 <= u && u <= 13) || u == 0x20 || u == 0x85 || u == 0xA0 || u == 0x1680 || (0x2000 <= u && u
        <= 0x200A) || u == 0x2028 || u == 0x2029 || u == 0x202F || u == 0x205F || u == 0x3000
}

/// ASCII white space: space, tab, line feed, form feed, carriage return.
pub open spec fn ascii_white_space(c: char) -> bool {
    c == ' ' || c == '\t' || c == '\n' || c == '\x0C' || c == '\r'
}

/// Whether `c` is ASCII white space.
pub fn is_ascii_white_space(c: char) -> (r: bool)
    ensures
        r == ascii_white_space(c),
{
    c == ' ' || c == '\t' || c == '\n' || c == '\x0C' || c == '\r'
}

/// `c`, with an ASCII lower-case letter made upper case.
pub open spec fn upper_char(c: char) -> char {
    if 'a' <= c <= 'z' {
        ((c as int) - 32) as char
    } else {
        c
    }
}

/// `s` with its ASCII letters made upper case.
pub open spec fn upper(s: Seq<char>) -> Seq<char> {
    Seq::new(s.len(), |i: int| upper_char(s[i]))
}

/// `c`, with an ASCII lower-case letter made upper case.
pub fn to_upper_char(c: char) -> (r: char)
    ensures
        r == upper_char(c),
{
    if 'a' <= c && c <= 'z' {
        let u: u8 = c as u8;
        (u - 32) as char
    } else {
        c
    }
}

/// A character that an identifier may hold: an ASCII letter or digit, or an
/// underscore.
pub open spec fn ident_char(c: char) -> bool {
    ('a' <= c && c <= 'z') || ('A' <= c && c <= 'Z') || ('0' <= c && c <= '9') || c == '_'
}

/// Whether an identifier may hold `c`.
pub(crate) fn is_ident_char(c: char) -> (r: bool)
    ensures
        r == ident_char(c),
{
    ('a' <= c && c <= 'z') || ('A' <= c && c <= 'Z') || ('0' <= c && c <= '9') || c == '_'
}

// ---------------------------------------------------------------------------
// Conversions
// ---------------------------------------------------------------------------

/// The characters of `s`.
pub fn to_chars(s: &str) -> (r: Vec<char>)
    ensures
        r@ == s@,
{
    let mut v: Vec<char> = Vec::new();
    for c in it: s.chars()
        invariant
            it.seq() == s@,
            v@ == s@.take(it.index()),
    {
        v.push(c);
        assert(s@.take(it.index()).push(c) =~= s@.take(it.index() + 1));
    }
    assert(s@.take(s@.len() as int) =~= s@);
    v
}

/// The string made of the characters `s`.
pub fn to_string(s: &[char]) -> (r: String)
    ensures
        r@ == s@,
{
    let mut out = String::new();
    push_chars(&mut out, s);
    assert(Seq::<char>::empty() + s@ =~= s@);
    out
}

/// Appends the characters `s`.
pub fn push_chars(out: &mut String, s: &[char])
    ensures
        final(out)@ == old(out)@ + s@,
{
    let mut i: usize = 0;
    let ghost start = out@;
    assert(start + s@.take(0) =~= start);
    while i < s.len()
        invariant
            i <= s@.len(),
            out@ == start + s@.take(i as int),
        decreases s@.len() - i,
    {
        out.push(s[i]);
        assert((start + s@.take(i as int)).push(s@[i as int]) =~= start + s@.take(i + 1));
        i = i + 1;
    }
    assert(s@.take(s@.len() as int) =~= s@);
}

/// `a`, then `b`, then `c`, as one string.
pub fn surround(a: &str, b: &[char], c: &str) -> (r: String)
    ensures
        r@ == a@ + b@ + c@,
{
    let mut out = String::from_str(a);
    push_chars(&mut out, b);
    out.append(c);
    out
}

/// `s` with its ASCII letters made upper case.
pub fn to_upper(s: &[char]) -> (r: Vec<char>)
    ensures
        r@ == upper(s@),
{
    let mut out: Vec<char> = Vec::new();
    let mut i: usize = 0;
    while i < s.len()
        invariant
            i <= s@.len(),
            out@ == upper(s@).take(i as int),
        decreases s@.len() - i,
    {
        out.push(to_upper_char(s[i]));
        assert(upper(s@).take(i as int).push(upper(s@)[i as int]) =~= upper(s@).take(i + 1));
        i = i + 1;
    }
    assert(upper(s@).take(s@.len() as int) =~= upper(s@));
    out
}

/// A copy of an optional string.
pub fn copy_opt(o: &Option<String>) -> (r: Option<String>)
    ensures
        opt_view(r) == opt_view(*o),
{
    match o {
        Some(s) => Some(s.clone()),
        None => None,
    }
}

// ---------------------------------------------------------------------------
// Comparing
// ---------------------------------------------------------------------------

/// Whether `p` stands in `s` at index `i`.
pub open spec fn occurs_at(s: Seq<char>, p: Seq<char>, i: int) -> bool {
    0 <= i && i + p.len() <= s.len() && s.subrange(i, i + p.len()) == p
}

/// Whether `p` stands in `s` at index `i`.
pub fn matches_at(s: &[char], p: &str, i: usize) -> (r: bool)
    ensures
        r == occurs_at(s@, p@, i as int),
{
    let n: usize = p.unicode_len();
    if i > s.len() || n > s.len() - i {
        return false;
    }
    let mut k: usize = 0;
    while k < n
        invariant
            n == p@.len(),
            i + n <= s.len(),
            k <= n,
            forall|j: int| 0 <= j < k ==> s@[i + j] == p@[j],
        decreases n - k,
    {
        if s[i + k] != p.get_char(k) {
            assert(s@.subrange(i as int, i + n)[k as int] != p@[k as int]);
            return false;
        }
        k = k + 1;
    }
    assert(s@.subrange(i as int, i + n) =~= p@);
    true
}

/// Whether `s` begins with `p`.
pub open spec fn has_prefix(s: Seq<char>, p: Seq<char>) -> bool {
    occurs_at(s, p, 0)
}

/// Whether `s` begins with `p`.
pub fn starts_with(s: &[char], p: &str) -> (r: bool)
    ensures
        r == has_prefix(s@, p@),
{
    matches_at(s, p, 0)
}

/// Whether `s` begins with the character `c`.
pub open spec fn begins(s: Seq<char>, c: char) -> bool {
    s.len() > 0 && s[0] == c
}

/// Whether `s` ends with the character `c`.
pub open spec fn ends(s: Seq<char>, c: char) -> bool {
    s.len() > 0 && s[s.len() - 1] == c
}

/// Whether `s` begins with the character `c`.
pub fn starts_with_char(s: &[char], c: char) -> (r: bool)
    ensures
        r == begins(s@, c),
{
    s.len() > 0 && s[0] == c
}

/// Whether `s` ends with the character `c`.
pub fn ends_with_char(s: &[char], c: char) -> (r: bool)
    ensures
        r == ends(s@, c),
{
    s.len() > 0 && s[s.len() - 1] == c
}

/// Whether `s` is the text `p`.
pub fn equals(s: &[char], p: &str) -> (r: bool)
    ensures
        r == (s@ == p@),
{
    if s.len() != p.unicode_len() {
        return false;
    }
    let r = matches_at(s, p, 0);
    assert(s@.subrange(0, s@.len() as int) =~= s@);
    r
}

/// Whether two texts are the same.
pub fn same(a: &[char], b: &[char]) -> (r: bool)
    ensures
        r == (a@ == b@),
{
    if a.len() != b.len() {
        return false;
    }
    let mut i: usize = 0;
    while i < a.len()
        invariant
            a@.len() == b@.len(),
            i <= a@.len(),
            forall|k: int| 0 <= k < i ==> a@[k] == b@[k],
        decreases a@.len() - i,
    {
        if a[i] != b[i] {
            return false;
        }
        i = i + 1;
    }
    assert(a@ =~= b@);
    true
}

/// Whether two strings hold the same text.
pub fn same_string(a: &String, b: &String) -> (r: bool)
    ensures
        r == (a@ == b@),
{
    *a == *b
}

// ---------------------------------------------------------------------------
// Cutting
// ---------------------------------------------------------------------------

/// The first `n` characters.
pub fn take(s: &[char], n: usize) -> (r: &[char])
    requires
        n <= s@.len(),
    ensures
        r@ == s@.take(n as int),
{
    slice_subrange(s, 0, n)
}

/// What is left after the first `n` characters.
pub fn skip(s: &[char], n: usize) -> (r: &[char])
    requires
        n <= s@.len(),
    ensures
        r@ == s@.skip(n as int),
{
    slice_subrange(s, n, s.len())
}

/// The first `n` characters, or all where there are fewer.
pub open spec fn at_most(s: Seq<char>, n: int) -> Seq<char> {
    if n <= s.len() {
        s.take(n)
    } else {
        s
    }
}

/// The first `n` characters, or all where there are fewer.
pub fn clip(s: &[char], n: usize) -> (r: &[char])
    ensures
        r@ == at_most(s@, n as int),
{
    if n <= s.len() {
        take(s, n)
    } else {
        s
    }
}

/// What follows the prefix `p`.
pub open spec fn after_prefix(s: Seq<char>, p: Seq<char>) -> Option<Seq<char>> {
    if has_prefix(s, p) {
        Some(s.skip(p.len() as int))
    } else {
        None
    }
}

/// What follows the prefix `p`.
pub fn strip_prefix<'a>(s: &'a [char], p: &str) -> (r: Option<&'a [char]>)
    ensures
        opt_view(r) == after_prefix(s@, p@),
{
    if starts_with(s, p) {
        Some(skip(s, p.unicode_len()))
    } else {
        None
    }
}

/// What stands before the last character, where that is `c`.
pub open spec fn before_suffix(s: Seq<char>, c: char) -> Option<Seq<char>> {
    if ends(s, c) {
        Some(s.take(s.len() - 1))
    } else {
        None
    }
}

/// What stands before the last character, where that is `c`.
pub fn strip_suffix<'a>(s: &'a [char], c: char) -> (r: Option<&'a [char]>)
    ensures
        opt_view(r) == before_suffix(s@, c),
{
    if ends_with_char(s, c) {
        Some(take(s, s.len() - 1))
    } else {
        None
    }
}

// ---------------------------------------------------------------------------
// Trimming
// ---------------------------------------------------------------------------

/// The first index from `i` on that holds no white space.
pub open spec fn past_white(s: Seq<char>, i: int) -> int
    decreases s.len() - i,
{
    if 0 <= i < s.len() && white_space(s[i]) {
        past_white(s, i + 1)
    } else {
        i
    }
}

/// The end of `s[..n]` without its trailing white space.
pub open spec fn before_white(s: Seq<char>, n: int) -> int
    decreases n,
{
    if 0 < n <= s.len() && white_space(s[n - 1]) {
        before_white(s, n - 1)
    } else {
        n
    }
}

/// `s` without its leading white space.
pub open spec fn trim_start(s: Seq<char>) -> Seq<char> {
    s.skip(past_white(s, 0))
}

/// `s` without its trailing white space.
pub open spec fn trim_end(s: Seq<char>) -> Seq<char> {
    s.take(before_white(s, s.len() as int))
}

/// `s` without its white space at either end.
pub open spec fn trim(s: Seq<char>) -> Seq<char> {
    trim_end(trim_start(s))
}

/// Whether `s` is empty or white space alone.
pub open spec fn blank(s: Seq<char>) -> bool {
    trim(s).len() == 0
}

pub proof fn lemma_past_white(s: Seq<char>, i: int)
    requires
        0 <= i <= s.len(),
    ensures
        i <= past_white(s, i) <= s.len(),
        forall|k: int| i <= k < past_white(s, i) ==> white_space(s[k]),
        past_white(s, i) < s.len() ==> !white_space(s[past_white(s, i)]),
    decreases s.len() - i,
{
    if i < s.len() && white_space(s[i]) {
        lemma_past_white(s, i + 1);
    }
}

pub proof fn lemma_before_white(s: Seq<char>, n: int)
    requires
        0 <= n <= s.len(),
    ensures
        0 <= before_white(s, n) <= n,
        forall|k: int| before_white(s, n) <= k < n ==> white_space(s[k]),
        before_white(s, n) > 0 ==> !white_space(s[before_white(s, n) - 1]),
    decreases n,
{
    if n > 0 && white_space(s[n - 1]) {
        lemma_before_white(s, n - 1);
    }
}

/// The lengths of the trimmed texts.
pub proof fn lemma_trim_len(s: Seq<char>)
    ensures
        trim_start(s).len() == s.len() - past_white(s, 0),
        0 <= past_white(s, 0) <= s.len(),
        trim_end(s).len() <= s.len(),
        trim(s).len() <= trim_start(s).len() <= s.len(),
{
    lemma_past_white(s, 0);
    lemma_before_white(s, s.len() as int);
    lemma_before_white(trim_start(s), trim_start(s).len() as int);
}

/// Trimming twice is trimming once.
pub proof fn lemma_trim_start_twice(s: Seq<char>)
    ensures
        trim_start(trim_start(s)) == trim_start(s),
{
    lemma_past_white(s, 0);
    let t = trim_start(s);
    assert(past_white(t, 0) == 0);
    assert(t.skip(0) =~= t);
}

/// The number of leading white space characters.
pub fn lead_len(s: &[char]) -> (r: usize)
    ensures
        r == past_white(s@, 0),
        r <= s@.len(),
{
    let mut i: usize = 0;
    while i < s.len() && is_white_space(s[i])
        invariant
            i <= s@.len(),
            past_white(s@, 0) == past_white(s@, i as int),
        decreases s@.len() - i,
    {
        i = i + 1;
    }
    i
}

/// `s` without its leading white space.
pub fn trim_start_of(s: &[char]) -> (r: &[char])
    ensures
        r@ == trim_start(s@),
        r@.len() == s@.len() - past_white(s@, 0),
{
    skip(s, lead_len(s))
}

/// `s` without its trailing white space.
pub fn trim_end_of(s: &[char]) -> (r: &[char])
    ensures
        r@ == trim_end(s@),
{
    let mut n: usize = s.len();
    while n > 0 && is_white_space(s[n - 1])
        invariant
            n <= s@.len(),
            before_white(s@, s@.len() as int) == before_white(s@, n as int),
        decreases n,
    {
        n = n - 1;
    }
    take(s, n)
}

/// `s` without its white space at either end.
pub fn trim_of(s: &[char]) -> (r: &[char])
    ensures
        r@ == trim(s@),
{
    trim_end_of(trim_start_of(s))
}

/// Whether `s` is empty or white space alone.
pub fn is_blank(s: &[char]) -> (r: bool)
    ensures
        r == blank(s@),
{
    trim_of(s).len() == 0
}

// ---------------------------------------------------------------------------
// Searching
// ---------------------------------------------------------------------------

/// The first index from `i` on that holds `c`.
pub open spec fn char_from(s: Seq<char>, c: char, i: int) -> Option<int>
    decreases s.len() - i,
{
    if 0 <= i < s.len() {
        if s[i] == c {
            Some(i)
        } else {
            char_from(s, c, i + 1)
        }
    } else {
        None
    }
}

/// The first index that holds `c`.
pub open spec fn char_index(s: Seq<char>, c: char) -> Option<int> {
    char_from(s, c, 0)
}

/// The first index from `i` on at which `p` stands.
pub open spec fn text_from(s: Seq<char>, p: Seq<char>, i: int) -> Option<int>
    decreases s.len() - i,
{
    if 0 <= i < s.len() {
        if occurs_at(s, p, i) {
            Some(i)
        } else {
            text_from(s, p, i + 1)
        }
    } else {
        None
    }
}

/// The first index at which the non-empty text `p` stands.
pub open spec fn text_index(s: Seq<char>, p: Seq<char>) -> Option<int> {
    text_from(s, p, 0)
}

pub proof fn lemma_char_from(s: Seq<char>, c: char, i: int)
    requires
        0 <= i <= s.len(),
    ensures
        char_from(s, c, i) matches Some(k) ==> i <= k < s.len() && s[k] == c && (forall|j: int|
            i <= j < k ==> s[j] != c),
        char_from(s, c, i) is None ==> (forall|j: int| i <= j < s.len() ==> s[j] != c),
    decreases s.len() - i,
{
    if i < s.len() && s[i] != c {
        lemma_char_from(s, c, i + 1);
    }
}

pub proof fn lemma_text_from(s: Seq<char>, p: Seq<char>, i: int)
    requires
        0 <= i <= s.len(),
    ensures
        text_from(s, p, i) matches Some(k) ==> i <= k < s.len() && occurs_at(s, p, k),
        text_from(s, p, i) is None ==> (forall|j: int| i <= j < s.len() ==> !occurs_at(s, p, j)),
    decreases s.len() - i,
{
    if i < s.len() && !occurs_at(s, p, i) {
        lemma_text_from(s, p, i + 1);
    }
}

/// An index as a mathematical integer.
pub open spec fn opt_int(o: Option<usize>) -> Option<int> {
    match o {
        Some(i) => Some(i as int),
        None => None,
    }
}

/// The first index that holds `c`.
pub fn find_char(s: &[char], c: char) -> (r: Option<usize>)
    ensures
        opt_int(r) == char_index(s@, c),
        r matches Some(i) ==> i < s@.len() && s@[i as int] == c,
{
    let mut i: usize = 0;
    while i < s.len()
        invariant
            i <= s@.len(),
            char_index(s@, c) == char_from(s@, c, i as int),
        decreases s@.len() - i,
    {
        if s[i] == c {
            return Some(i);
        }
        i = i + 1;
    }
    None
}

/// The first index at which the non-empty text `p` stands.
pub fn find_text(s: &[char], p: &str) -> (r: Option<usize>)
    ensures
        opt_int(r) == text_index(s@, p@),
        r matches Some(i) ==> i < s@.len() && occurs_at(s@, p@, i as int),
{
    let mut i: usize = 0;
    while i < s.len()
        invariant
            i <= s@.len(),
            text_index(s@, p@) == text_from(s@, p@, i as int),
        decreases s@.len() - i,
    {
        if matches_at(s, p, i) {
            return Some(i);
        }
        i = i + 1;
    }
    None
}

/// Whether `c` occurs in `s`.
pub open spec fn has_char(s: Seq<char>, c: char) -> bool {
    char_index(s, c) is Some
}

/// Whether the non-empty text `p` occurs in `s`.
pub open spec fn has_text(s: Seq<char>, p: Seq<char>) -> bool {
    text_index(s, p) is Some
}

/// Whether `c` occurs in `s`.
pub fn contains_char(s: &[char], c: char) -> (r: bool)
    ensures
        r == has_char(s@, c),
{
    find_char(s, c).is_some()
}

/// Whether the non-empty text `p` occurs in `s`.
pub fn contains_text(s: &[char], p: &str) -> (r: bool)
    ensures
        r == has_text(s@, p@),
{
    find_text(s, p).is_some()
}

// ---------------------------------------------------------------------------
// Splitting
// ---------------------------------------------------------------------------

/// The pieces of `s` between the occurrences of `c`.
pub open spec fn split(s: Seq<char>, c: char) -> Seq<Seq<char>>
    decreases s.len(),
{
    proof {
        lemma_char_from(s, c, 0);
    }
    match char_index(s, c) {
        Some(i) => seq![s.take(i)] + split(s.skip(i + 1), c),
        None => seq![s],
    }
}

/// The pieces of `s` between the occurrences of `c`.
pub fn split_at_char<'a>(s: &'a [char], c: char) -> (r: Vec<&'a [char]>)
    ensures
        views(r@) == split(s@, c),
{
    broadcast use lemma_views_push;

    let mut out: Vec<&'a [char]> = Vec::new();
    let mut rest: &'a [char] = s;
    assert(views(out@) + split(rest@, c) =~= split(s@, c));
    loop
        invariant
            views(out@) + split(rest@, c) == split(s@, c),
        decreases rest@.len(),
    {
        match find_char(rest, c) {
            Some(i) => {
                let ghost before = views(out@);
                let ghost old_rest = rest@;
                out.push(take(rest, i));
                let len: usize = rest.len();
                assert(i < len);
                rest = skip(rest, i + 1);
                assert(before.push(old_rest.take(i as int)) + split(rest@, c) =~= before + (seq![
                    old_rest.take(i as int),
                ] + split(rest@, c)));
            },
            None => {
                let ghost before = views(out@);
                out.push(rest);
                assert(before.push(rest@) =~= before + seq![rest@]);
                return out;
            },
        }
    }
}

/// The end of the run from `i` on that holds no white space.
pub open spec fn past_word(s: Seq<char>, i: int) -> int
    decreases s.len() - i,
{
    if 0 <= i < s.len() && !white_space(s[i]) {
        past_word(s, i + 1)
    } else {
        i
    }
}

pub proof fn lemma_past_word(s: Seq<char>, i: int)
    requires
        0 <= i <= s.len(),
    ensures
        i <= past_word(s, i) <= s.len(),
        i < s.len() && !white_space(s[i]) ==> i < past_word(s, i),
    decreases s.len() - i,
{
    if i < s.len() && !white_space(s[i]) {
        lemma_past_word(s, i + 1);
    }
}

/// The end of the run from `i` on that holds no white space.
pub fn word_end(s: &[char], from: usize) -> (r: usize)
    requires
        from <= s@.len(),
    ensures
        r == past_word(s@, from as int),
        from <= r <= s@.len(),
{
    let mut i: usize = from;
    while i < s.len() && !is_white_space(s[i])
        invariant
            from <= i <= s@.len(),
            past_word(s@, from as int) == past_word(s@, i as int),
        decreases s@.len() - i,
    {
        i = i + 1;
    }
    i
}

/// The words of `s`: its maximal runs without white space.
pub open spec fn words(s: Seq<char>) -> Seq<Seq<char>>
    decreases s.len(),
{
    proof {
        lemma_past_white(s, 0);
        lemma_past_word(trim_start(s), 0);
    }
    let t = trim_start(s);
    if t.len() == 0 {
        Seq::empty()
    } else {
        seq![t.take(past_word(t, 0))] + words(t.skip(past_word(t, 0)))
    }
}

/// The words of `s`: its maximal runs without white space.
pub fn split_words<'a>(s: &'a [char]) -> (r: Vec<&'a [char]>)
    ensures
        views(r@) == words(s@),
{
    broadcast use lemma_views_push;

    let mut out: Vec<&'a [char]> = Vec::new();
    let mut rest: &'a [char] = s;
    assert(views(out@) + words(rest@) =~= words(s@));
    loop
        invariant
            views(out@) + words(rest@) == words(s@),
        decreases rest@.len(),
    {
        let t = trim_start_of(rest);
        if t.len() == 0 {
            assert(views(out@) + words(rest@) =~= views(out@));
            return out;
        }
        let n: usize = word_end(t, 0);
        proof {
            lemma_past_white(rest@, 0);
            lemma_past_word(t@, 0);
        }
        let ghost before = views(out@);
        out.push(take(t, n));
        assert(before.push(t@.take(n as int)) + words(t@.skip(n as int)) =~= before + (seq![
            t@.take(n as int),
        ] + words(t@.skip(n as int))));
        rest = skip(t, n);
    }
}

/// The first word of `s`, or `other` where it has none.
pub open spec fn first_word(s: Seq<char>, other: Seq<char>) -> Seq<char> {
    let t = trim_start(s);
    if t.len() == 0 {
        other
    } else {
        t.take(past_word(t, 0))
    }
}

/// The first word of `s`, or `other` where it has none.
pub fn first_word_of(s: &[char], other: &str) -> (r: Vec<char>)
    ensures
        r@ == first_word(s@, other@),
{
    let t = trim_start_of(s);
    if t.len() == 0 {
        to_chars(other)
    } else {
        vstd::slice::slice_to_vec(take(t, word_end(t, 0)))
    }
}

/// The identifier at the start of a text, white space skipped: its end, from
/// index `i` on.
pub open spec fn past_ident(s: Seq<char>, i: int) -> int
    decreases s.len() - i,
{
    if 0 <= i < s.len() && ident_char(s[i]) {
        past_ident(s, i + 1)
    } else {
        i
    }
}

pub proof fn lemma_past_ident(s: Seq<char>, i: int)
    requires
        0 <= i <= s.len(),
    ensures
        i <= past_ident(s, i) <= s.len(),
        forall|k: int| i <= k < past_ident(s, i) ==> ident_char(s[k]),
        past_ident(s, i) < s.len() ==> !ident_char(s[past_ident(s, i)]),
    decreases s.len() - i,
{
    if i < s.len() && ident_char(s[i]) {
        lemma_past_ident(s, i + 1);
    }
}

/// The end of the identifier characters from `i` on.
pub fn ident_end(s: &[char], from: usize) -> (r: usize)
    requires
        from <= s@.len(),
    ensures
        r == past_ident(s@, from as int),
        from <= r <= s@.len(),
{
    let mut i: usize = from;
    while i < s.len() && is_ident_char(s[i])
        invariant
            from <= i <= s@.len(),
            past_ident(s@, from as int) == past_ident(s@, i as int),
        decreases s@.len() - i,
    {
        i = i + 1;
    }
    i
}

// ---------------------------------------------------------------------------
// Numbers
// ---------------------------------------------------------------------------

/// The decimal digit for `d`.
pub open spec fn digit(d: int) -> char {
    (48 + d) as char
}

/// The decimal digits of `n`, without leading zeros.
pub open spec fn decimal(n: int) -> Seq<char>
    decreases n,
{
    if n < 10 {
        seq![digit(n)]
    } else {
        decimal(n / 10).push(digit(n % 10))
    }
}

/// Appends the decimal digits of `n`.
pub fn push_decimal(out: &mut String, n: usize)
    ensures
        final(out)@ == old(out)@ + decimal(n as int),
    decreases n,
{
    if n < 10 {
        out.push((48 + n as u8) as char);
        assert(old(out)@.push(digit(n as int)) =~= old(out)@ + decimal(n as int));
    } else {
        push_decimal(out, n / 10);
        out.push((48 + (n % 10) as u8) as char);
        assert((old(out)@ + decimal(n as int / 10)).push(digit(n as int % 10)) =~= old(out)@ + decimal(n as int));
    }
}

/// Appends the decimal digits of `n`.
pub fn push_wide(out: &mut String, n: u128)
    ensures
        final(out)@ == old(out)@ + decimal(n as int),
    decreases n,
{
    if n < 10 {
        out.push((48 + n as u8) as char);
        assert(old(out)@.push(digit(n as int)) =~= old(out)@ + decimal(n as int));
    } else {
        push_wide(out, n / 10);
        out.push((48 + (n % 10) as u8) as char);
        assert((old(out)@ + decimal(n as int / 10)).push(digit(n as int % 10)) =~= old(out)@ + decimal(n as int));
    }
}

/// The decimal digits of `n`, behind a minus sign where it is negative.
pub open spec fn signed(n: int) -> Seq<char> {
    if n < 0 {
        "-"@ + decimal(-n)
    } else {
        decimal(n)
    }
}

/// Appends the decimal digits of `n`, behind a minus sign where it is negative.
pub fn push_signed(out: &mut String, n: i64)
    ensures
        final(out)@ == old(out)@ + signed(n as int),
{
    if n < 0 {
        out.append("-");
        push_wide(out, (-(n as i128)) as u128);
        assert(old(out)@ + "-"@ + decimal(-(n as int)) =~= old(out)@ + signed(n as int));
    } else {
        push_wide(out, n as u128);
    }
}

// ---------------------------------------------------------------------------
// Building strings
// ---------------------------------------------------------------------------

/// The first `n` of `parts`, with `sep` between them.
pub open spec fn join_first(parts: Seq<Seq<char>>, sep: Seq<char>, n: int) -> Seq<char>
    decreases n,
{
    if n <= 0 {
        Seq::empty()
    } else if n == 1 {
        parts[0]
    } else {
        join_first(parts, sep, n - 1) + sep + parts[n - 1]
    }
}

/// The `parts`, with `sep` between them.
pub open spec fn joined(parts: Seq<Seq<char>>, sep: Seq<char>) -> Seq<char> {
    join_first(parts, sep, parts.len() as int)
}

/// The `parts`, with `sep` between them.
pub fn join(parts: &Vec<String>, sep: &str) -> (r: String)
    ensures
        r@ == joined(views(parts@), sep@),
{
    let ghost all = views(parts@);
    let mut out = String::new();
    let mut i: usize = 0;
    while i < parts.len()
        invariant
            i <= parts@.len(),
            all == views(parts@),
            out@ == join_first(all, sep@, i as int),
        decreases parts@.len() - i,
    {
        if i > 0 {
            out.append(sep);
        }
        out.append(parts[i].as_str());
        assert(all[i as int] == parts@[i as int]@);
        assert(Seq::<char>::empty() + all[0] =~= all[0]);
        i = i + 1;
    }
    out
}

/// Whether two strings are the same.
pub fn same_str(a: &str, b: &str) -> (r: bool)
    ensures
        r == (a@ == b@),
{
    let x = to_chars(a);
    let y = to_chars(b);
    same(x.as_slice(), y.as_slice())
}

/// `a` followed by `b`.
pub fn concat(a: &str, b: &str) -> (r: String)
    ensures
        r@ == a@ + b@,
{
    let mut out = String::from_str(a);
    out.append(b);
    out
}

/// `a`, `b` and `c`, one after another.
pub fn concat3(a: &str, b: &str, c: &str) -> (r: String)
    ensures
        r@ == a@ + b@ + c@,
{
    let mut out = concat(a, b);
    out.append(c);
    out
}

/// `a` followed by the decimal digits of `n`.
pub fn numbered(a: &str, n: usize) -> (r: String)
    ensures
        r@ == a@ + decimal(n as int),
{
    let mut out = String::from_str(a);
    push_decimal(&mut out, n);
    out
}

/// A text that begins with a character other than white space still does after
/// it was trimmed, and a trimmed text begins with none.
pub proof fn lemma_trim_first(s: Seq<char>)
    ensures
        s.len() > 0 && !white_space(s[0]) ==> trim(s).len() > 0 && trim(s)[0] == s[0],
        trim(s).len() > 0 ==> !white_space(trim(s)[0]),
{
    lemma_past_white(s, 0);
    let t = trim_start(s);
    lemma_before_white(t, t.len() as int);
    if t.len() > 0 {
        assert(!white_space(t[0]));
        assert(before_white(t, t.len() as int) > 0);
    }
}

} // verus!
