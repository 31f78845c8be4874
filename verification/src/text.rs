//! Character-level text handling shared by the parsers: whitespace, trimming,
//! searching, prefixes, line splitting, and building strings from characters.
//!
//! Every executable function works on a window `[lo, hi)` of a character vector
//! and is specified through the spec functions on `Seq<char>` defined here.
use vstd::prelude::*;

verus! {

/// Unicode `White_Space`: the characters for which `char::is_whitespace` holds,
/// and which `str::trim` and `str::split_whitespace` treat as whitespace.
pub open spec fn is_whitespace(c: char) -> bool {
    let u = c as u32;
    ||| 0x9 <= u && u <= 0xD
    ||| u == 0x20
    ||| u == 0x85
    ||| u == 0xA0
    ||| u == 0x1680
    ||| 0x2000 <= u && u <= 0x200A
    ||| u == 0x2028
    ||| u == 0x2029
    ||| u == 0x202F
    ||| u == 0x205F
    ||| u == 0x3000
}

/// Whether `c` is Unicode whitespace.
pub fn is_whitespace_char(c: char) -> (b: bool)
    ensures
        b == is_whitespace(c),
{
    let u = c as u32;
    (0x9 <= u && u <= 0xD) || u == 0x20 || u == 0x85 || u == 0xA0 || u == 0x1680 || (0x2000 <= u
        && u <= 0x200A) || u == 0x2028 || u == 0x2029 || u == 0x202F || u == 0x205F || u == 0x3000
}

/// A class of characters that a search looks for.
pub enum CharClass {
    /// Exactly this character.
    Exactly(char),
    /// Any whitespace character.
    Whitespace,
    /// Any character that is not whitespace.
    NonWhitespace,
}

/// Whether `c` belongs to class `k`.
pub open spec fn in_class(c: char, k: CharClass) -> bool {
    match k {
        CharClass::Exactly(d) => c == d,
        CharClass::Whitespace => is_whitespace(c),
        CharClass::NonWhitespace => !is_whitespace(c),
    }
}

/// Index of the first character of `s` in class `k`, or `s.len()` when there is none.
pub open spec fn first_in(s: Seq<char>, k: CharClass) -> nat
    decreases s.len(),
{
    if s.len() == 0 || in_class(s[0], k) {
        0
    } else {
        1 + first_in(s.drop_first(), k)
    }
}

/// Whether `s` holds a character of class `k`.
pub open spec fn has_in(s: Seq<char>, k: CharClass) -> bool {
    exists|i: int| 0 <= i < s.len() && in_class(#[trigger] s[i], k)
}

/// `first_in` is the index characterised by: nothing before it is in the
/// class, and it is either the end or a character of the class.
pub proof fn lemma_first_in(s: Seq<char>, k: CharClass, i: int)
    requires
        0 <= i <= s.len(),
        forall|j: int| 0 <= j < i ==> !in_class(#[trigger] s[j], k),
        i == s.len() || in_class(s[i], k),
    ensures
        first_in(s, k) == i,
    decreases i,
{
    if i > 0 {
        let t = s.drop_first();
        assert forall|j: int| 0 <= j < i - 1 implies !in_class(#[trigger] t[j], k) by {
            assert(t[j] == s[j + 1]);
        }
        lemma_first_in(t, k, i - 1);
    }
}

/// What `first_in` satisfies.
pub proof fn lemma_first_in_props(s: Seq<char>, k: CharClass)
    ensures
        first_in(s, k) <= s.len(),
        forall|j: int| 0 <= j < first_in(s, k) ==> !in_class(#[trigger] s[j], k),
        first_in(s, k) < s.len() ==> in_class(s[first_in(s, k) as int], k),
        first_in(s, k) == s.len() <==> !has_in(s, k),
    decreases s.len(),
{
    if s.len() > 0 && !in_class(s[0], k) {
        let t = s.drop_first();
        lemma_first_in_props(t, k);
        assert forall|j: int| 0 <= j < first_in(s, k) implies !in_class(#[trigger] s[j], k) by {
            if j > 0 {
                assert(s[j] == t[j - 1]);
            }
        }
        if has_in(s, k) {
            let w = choose|i: int| 0 <= i < s.len() && in_class(#[trigger] s[i], k);
            assert(t[w - 1] == s[w]);
        }
        if has_in(t, k) {
            let w = choose|i: int| 0 <= i < t.len() && in_class(#[trigger] t[i], k);
            assert(s[w + 1] == t[w]);
        }
    }
}

/// `s` without its leading whitespace (as `str::trim_start`).
pub open spec fn trim_start(s: Seq<char>) -> Seq<char> {
    s.skip(first_in(s, CharClass::NonWhitespace) as int)
}

/// Length of `s` once its trailing whitespace is removed.
pub open spec fn trimmed_len(s: Seq<char>) -> nat
    decreases s.len(),
{
    if s.len() > 0 && is_whitespace(s.last()) {
        trimmed_len(s.drop_last())
    } else {
        s.len()
    }
}

/// `s` without its trailing whitespace (as `str::trim_end`).
pub open spec fn trim_end(s: Seq<char>) -> Seq<char> {
    s.take(trimmed_len(s) as int)
}

/// `s` without leading and trailing whitespace (as `str::trim`).
pub open spec fn trim(s: Seq<char>) -> Seq<char> {
    trim_end(trim_start(s))
}

/// `trimmed_len` is the end of the last non-whitespace character.
pub proof fn lemma_trimmed_len(s: Seq<char>, i: int)
    requires
        0 <= i <= s.len(),
        forall|j: int| i <= j < s.len() ==> is_whitespace(#[trigger] s[j]),
        i == 0 || !is_whitespace(s[i - 1]),
    ensures
        trimmed_len(s) == i,
    decreases s.len() - i,
{
    if i < s.len() {
        let t = s.drop_last();
        assert forall|j: int| i <= j < t.len() implies is_whitespace(#[trigger] t[j]) by {
            assert(t[j] == s[j]);
        }
        assert(is_whitespace(s[s.len() - 1]));
        lemma_trimmed_len(t, i);
    }
}

/// Trimming keeps a window of the text: the result is `s[r.0..r.1]`.
pub proof fn lemma_trim_bounds(s: Seq<char>) -> (r: (int, int))
    ensures
        0 <= r.0 <= r.1 <= s.len(),
        trim(s) == s.subrange(r.0, r.1),
{
    lemma_first_in_props(s, CharClass::NonWhitespace);
    let a = first_in(s, CharClass::NonWhitespace) as int;
    let u = s.skip(a);
    lemma_trimmed_len_le(u);
    let m = trimmed_len(u) as int;
    assert(trim(s) =~= s.subrange(a, a + m));
    (a, a + m)
}

/// Trimming the end never lengthens.
pub proof fn lemma_trimmed_len_le(s: Seq<char>)
    ensures
        trimmed_len(s) <= s.len(),
    decreases s.len(),
{
    if s.len() > 0 && is_whitespace(s.last()) {
        lemma_trimmed_len_le(s.drop_last());
    }
}

/// What occurs in a window of `s` occurs in `s`.
pub proof fn lemma_contains_window(s: Seq<char>, a: int, b: int, p: Seq<char>)
    requires
        0 <= a <= b <= s.len(),
        contains(s.subrange(a, b), p),
    ensures
        contains(s, p),
{
    let w = s.subrange(a, b);
    let i = choose|i: int| 0 <= i && i + p.len() <= w.len() && #[trigger] w.subrange(i, i + p.len()) == p;
    assert(w.subrange(i, i + p.len()) =~= s.subrange(a + i, a + i + p.len()));
}

/// Whether `s` begins with `p`.
pub open spec fn starts_with(s: Seq<char>, p: Seq<char>) -> bool {
    p.len() <= s.len() && s.take(p.len() as int) == p
}

/// Whether `p` occurs in `s` as a contiguous run of characters.
pub open spec fn contains(s: Seq<char>, p: Seq<char>) -> bool {
    exists|i: int| 0 <= i && i + p.len() <= s.len() && #[trigger] s.subrange(i, i + p.len()) == p
}

/// A line without the carriage return that ended it.
pub open spec fn strip_cr(s: Seq<char>) -> Seq<char> {
    if s.len() > 0 && s.last() == '\r' {
        s.drop_last()
    } else {
        s
    }
}

/// The lines of `s`, as `BufRead::lines` and `str::lines` give them: split at
/// each `'\n'`, a `'\r'` just before a `'\n'` dropped, no empty line after a
/// final `'\n'`.
pub open spec fn lines(s: Seq<char>) -> Seq<Seq<char>>
    decreases s.len(),
{
    if s.len() == 0 {
        seq![]
    } else {
        let p = first_in(s, CharClass::Exactly('\n'));
        if p < s.len() {
            seq![strip_cr(s.take(p as int))] + lines(s.skip(p + 1 as int))
        } else {
            seq![s]
        }
    }
}

/// The parts of `s` between colons (as `str::split(':')`).
pub open spec fn split_colons(s: Seq<char>) -> Seq<Seq<char>>
    decreases s.len(),
{
    if s.len() == 0 {
        seq![s]
    } else {
        let p = first_in(s, CharClass::Exactly(':'));
        if p < s.len() {
            seq![s.take(p as int)] + split_colons(s.skip(p + 1 as int))
        } else {
            seq![s]
        }
    }
}

/// The part of `v` in the window `[lo, hi)`.
pub open spec fn window(v: Seq<char>, lo: int, hi: int) -> Seq<char> {
    v.subrange(lo, hi)
}

/// The characters of `s`, in order.
pub fn chars_of(s: &str) -> (v: Vec<char>)
    ensures
        v@ == s@,
{
    let mut v: Vec<char> = Vec::new();
    for c in it: s.chars()
        invariant
            v@ == it.seq().take(it.index() as int),
    {
        v.push(c);
    }
    v
}

/// Whether `c` belongs to class `k`.
pub fn char_in(c: char, k: &CharClass) -> (b: bool)
    ensures
        b == in_class(c, *k),
{
    match k {
        CharClass::Exactly(d) => c == *d,
        CharClass::Whitespace => is_whitespace_char(c),
        CharClass::NonWhitespace => !is_whitespace_char(c),
    }
}

/// Index of the first character of class `k` in the window `[lo, hi)`, or `hi`.
pub fn scan(v: &Vec<char>, lo: usize, hi: usize, k: &CharClass) -> (i: usize)
    requires
        lo <= hi <= v@.len(),
    ensures
        lo <= i <= hi,
        i == lo + first_in(window(v@, lo as int, hi as int), *k),
{
    let mut i = lo;
    while i < hi
        invariant
            lo <= i <= hi <= v@.len(),
            forall|j: int| lo <= j < i ==> !in_class(#[trigger] v@[j], *k),
        ensures
            lo <= i <= hi,
            forall|j: int| lo <= j < i ==> !in_class(#[trigger] v@[j], *k),
            i == hi || in_class(v@[i as int], *k),
        decreases hi - i,
    {
        if char_in(v[i], k) {
            break;
        }
        i = i + 1;
    }
    proof {
        let s = window(v@, lo as int, hi as int);
        assert forall|j: int| 0 <= j < i - lo implies !in_class(#[trigger] s[j], *k) by {
            assert(s[j] == v@[lo + j]);
        }
        if i < hi {
            assert(s[i - lo] == v@[i as int]);
        }
        lemma_first_in(s, *k, i - lo);
    }
    i
}

/// End of the window `[lo, hi)` once its trailing whitespace is removed.
pub fn scan_back_non_whitespace(v: &Vec<char>, lo: usize, hi: usize) -> (j: usize)
    requires
        lo <= hi <= v@.len(),
    ensures
        lo <= j <= hi,
        j == lo + trimmed_len(window(v@, lo as int, hi as int)),
{
    let mut j = hi;
    while j > lo
        invariant
            lo <= j <= hi <= v@.len(),
            forall|m: int| j <= m < hi ==> is_whitespace(#[trigger] v@[m]),
        ensures
            lo <= j <= hi,
            forall|m: int| j <= m < hi ==> is_whitespace(#[trigger] v@[m]),
            j == lo || !is_whitespace(v@[j - 1]),
        decreases j - lo,
    {
        if !is_whitespace_char(v[j - 1]) {
            break;
        }
        j = j - 1;
    }
    proof {
        let s = window(v@, lo as int, hi as int);
        assert forall|m: int| j - lo <= m < s.len() implies is_whitespace(#[trigger] s[m]) by {
            assert(s[m] == v@[lo + m]);
        }
        if j > lo {
            assert(s[j - lo - 1] == v@[j - 1]);
        }
        lemma_trimmed_len(s, j - lo);
    }
    j
}

/// The window `[lo, hi)` without leading whitespace starts at the result.
pub fn skip_whitespace(v: &Vec<char>, lo: usize, hi: usize) -> (i: usize)
    requires
        lo <= hi <= v@.len(),
    ensures
        lo <= i <= hi,
        window(v@, i as int, hi as int) == trim_start(window(v@, lo as int, hi as int)),
{
    let i = scan(v, lo, hi, &CharClass::NonWhitespace);
    proof {
        let s = window(v@, lo as int, hi as int);
        assert(window(v@, i as int, hi as int) =~= s.skip(i - lo));
    }
    i
}

/// The window `[lo, hi)` trimmed of whitespace at both ends is `[r.0, r.1)`.
pub fn trim_window(v: &Vec<char>, lo: usize, hi: usize) -> (r: (usize, usize))
    requires
        lo <= hi <= v@.len(),
    ensures
        lo <= r.0 <= r.1 <= hi,
        window(v@, r.0 as int, r.1 as int) == trim(window(v@, lo as int, hi as int)),
{
    let a = skip_whitespace(v, lo, hi);
    let b = scan_back_non_whitespace(v, a, hi);
    proof {
        let t = window(v@, a as int, hi as int);
        assert(window(v@, a as int, b as int) =~= t.take(b - a));
    }
    (a, b)
}

/// Whether the characters of `v` from `i` on begin with `p`.
pub fn matches_at(v: &Vec<char>, i: usize, p: &Vec<char>) -> (b: bool)
    requires
        i <= v@.len(),
    ensures
        b == (p@.len() <= v@.len() - i && window(v@, i as int, i + p@.len()) == p@),
{
    if p.len() > v.len() - i {
        return false;
    }
    let n = v.len();
    let mut j: usize = 0;
    while j < p.len()
        invariant
            n == v@.len(),
            i <= v@.len(),
            j <= p@.len() <= v@.len() - i,
            forall|m: int| 0 <= m < j ==> v@[i + m] == p@[m],
        decreases p@.len() - j,
    {
        if v[i + j] != p[j] {
            proof {
                let w = window(v@, i as int, i + p@.len());
                assert(w[j as int] == v@[i + j]);
            }
            return false;
        }
        j = j + 1;
    }
    assert(window(v@, i as int, i + p@.len()) =~= p@);
    true
}

/// Whether the window `[lo, hi)` begins with `p`.
pub fn window_starts_with(v: &Vec<char>, lo: usize, hi: usize, p: &Vec<char>) -> (b: bool)
    requires
        lo <= hi <= v@.len(),
    ensures
        b == starts_with(window(v@, lo as int, hi as int), p@),
{
    if p.len() > hi - lo {
        return false;
    }
    let m = matches_at(v, lo, p);
    assert(window(v@, lo as int, hi as int).take(p@.len() as int) =~= window(
        v@,
        lo as int,
        lo + p@.len(),
    ));
    m
}

/// Whether `p` occurs in the window `[lo, hi)`.
pub fn window_contains(v: &Vec<char>, lo: usize, hi: usize, p: &Vec<char>) -> (b: bool)
    requires
        lo <= hi <= v@.len(),
    ensures
        b == contains(window(v@, lo as int, hi as int), p@),
{
    let ghost s = window(v@, lo as int, hi as int);
    if p.len() > hi - lo {
        return false;
    }
    let last = hi - p.len();
    let mut i = lo;
    while i < last
        invariant
            lo <= i <= last,
            last + p@.len() == hi,
            hi <= v@.len(),
            s == window(v@, lo as int, hi as int),
            forall|j: int| lo <= j < i ==> #[trigger] window(v@, j, j + p@.len()) != p@,
        decreases last - i,
    {
        if matches_at(v, i, p) {
            assert(s.subrange(i - lo, i - lo + p@.len()) =~= window(v@, i as int, i + p@.len()));
            return true;
        }
        i = i + 1;
    }
    if matches_at(v, last, p) {
        assert(s.subrange(last - lo, last - lo + p@.len()) =~= window(
            v@,
            last as int,
            last + p@.len(),
        ));
        return true;
    }
    assert forall|j: int| 0 <= j && j + p@.len() <= s.len() implies #[trigger] s.subrange(
        j,
        j + p@.len(),
    ) != p@ by {
        assert(s.subrange(j, j + p@.len()) =~= window(v@, lo + j, lo + j + p@.len()));
    }
    false
}

/// The characters in the window `[lo, hi)`.
pub fn window_chars(v: &Vec<char>, lo: usize, hi: usize) -> (r: Vec<char>)
    requires
        lo <= hi <= v@.len(),
    ensures
        r@ == window(v@, lo as int, hi as int),
{
    let mut r: Vec<char> = Vec::new();
    let mut i = lo;
    while i < hi
        invariant
            lo <= i <= hi <= v@.len(),
            r@ == window(v@, lo as int, i as int),
        decreases hi - i,
    {
        r.push(v[i]);
        assert(window(v@, lo as int, i + 1) =~= window(v@, lo as int, i as int).push(v@[i as int]));
        i = i + 1;
    }
    r
}

/// The string made of the characters in the window `[lo, hi)`.
pub fn string_of(v: &Vec<char>, lo: usize, hi: usize) -> (s: String)
    requires
        lo <= hi <= v@.len(),
    ensures
        s@ == window(v@, lo as int, hi as int),
{
    let mut s = String::new();
    let mut i = lo;
    while i < hi
        invariant
            lo <= i <= hi <= v@.len(),
            s@ == window(v@, lo as int, i as int),
        decreases hi - i,
    {
        push_char(&mut s, v[i]);
        assert(window(v@, lo as int, i + 1) =~= window(v@, lo as int, i as int).push(v@[i as int]));
        i = i + 1;
    }
    s
}

/// The string `s` without leading and trailing whitespace (as `str::trim`).
pub fn trimmed(s: &str) -> (r: String)
    ensures
        r@ == trim(s@),
{
    let v = chars_of(s);
    let (a, b) = trim_window(&v, 0, v.len());
    assert(window(v@, 0, v@.len() as int) =~= v@);
    string_of(&v, a, b)
}

/// The windows of the lines of `v`: `lines(v@)[i]` is the window `r[i]`.
pub fn line_windows(v: &Vec<char>) -> (r: Vec<(usize, usize)>)
    ensures
        r@.len() == lines(v@).len(),
        forall|i: int|
            0 <= i < r@.len() ==> (#[trigger] r@[i]).0 <= r@[i].1 <= v@.len() && window(
                v@,
                r@[i].0 as int,
                r@[i].1 as int,
            ) == lines(v@)[i],
{
    let mut r: Vec<(usize, usize)> = Vec::new();
    let mut pos: usize = 0;
    let ghost mut done: Seq<Seq<char>> = seq![];
    assert(v@.skip(0) =~= v@);
    while pos < v.len()
        invariant
            pos <= v@.len(),
            lines(v@) == done + lines(v@.skip(pos as int)),
            r@.len() == done.len(),
            forall|i: int|
                0 <= i < r@.len() ==> (#[trigger] r@[i]).0 <= r@[i].1 <= v@.len() && window(
                    v@,
                    r@[i].0 as int,
                    r@[i].1 as int,
                ) == done[i],
        decreases v@.len() - pos,
    {
        let len = v.len();
        let p = scan(v, pos, len, &CharClass::Exactly('\n'));
        let ghost s = v@.skip(pos as int);
        assert(window(v@, pos as int, len as int) =~= s);
        if p < len {
            let e = if p > pos && v[p - 1] == '\r' {
                p - 1
            } else {
                p
            };
            proof {
                let line = s.take(p - pos);
                assert(line =~= window(v@, pos as int, p as int));
                assert(s.skip(p - pos + 1) =~= v@.skip(p + 1));
                assert(window(v@, pos as int, e as int) =~= strip_cr(line));
                assert(lines(s) == seq![strip_cr(line)] + lines(v@.skip(p + 1)));
                assert(done + lines(s) =~= done.push(strip_cr(line)) + lines(v@.skip(p + 1)));
                done = done.push(strip_cr(line));
            }
            r.push((pos, e));
            pos = p + 1;
        } else {
            proof {
                assert(lines(s) == seq![s]);
                assert(v@.skip(len as int) =~= Seq::<char>::empty());
                assert(lines(v@.skip(len as int)) =~= Seq::<Seq<char>>::empty());
                assert(done + lines(s) =~= done.push(s) + lines(v@.skip(len as int)));
                done = done.push(s);
            }
            r.push((pos, len));
            pos = len;
        }
    }
    assert(v@.skip(pos as int) =~= Seq::<char>::empty());
    assert(done + lines(v@.skip(pos as int)) =~= done);
    r
}

/// Appends one character to a string.
///
/// Trusted: calls `String::push` from std, whose documentation says that it
/// appends the given char to the end of the string; the contract states
/// exactly that over the character views.
#[verifier::external_body]
pub(crate) fn push_char(s: &mut String, c: char)
    ensures
        final(s)@ == old(s)@.push(c),
{
    s.push(c);
}

} // verus!
