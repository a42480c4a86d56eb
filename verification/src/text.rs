//! Character-level text operations used by the line protocol, each stated
//! over the character sequence of the text.

use vstd::prelude::*;

verus! {

/// Whether `c` has the Unicode `White_Space` property, the set of characters
/// that `char::is_whitespace` accepts and that `str::trim` and
/// `str::split_whitespace` treat as white space.
pub open spec fn is_white_space(c: char) -> bool {
    ||| ('\u{9}' <= c && c <= '\u{d}')
    ||| c == ' '
    ||| c == '\u{85}'
    ||| c == '\u{a0}'
    ||| c == '\u{1680}'
    ||| ('\u{2000}' <= c && c <= '\u{200a}')
    ||| c == '\u{2028}'
    ||| c == '\u{2029}'
    ||| c == '\u{202f}'
    ||| c == '\u{205f}'
    ||| c == '\u{3000}'
}

/// `s` without its leading white space.
pub open spec fn trim_start(s: Seq<char>) -> Seq<char>
    decreases s.len(),
{
    if s.len() > 0 && is_white_space(s[0]) {
        trim_start(s.drop_first())
    } else {
        s
    }
}

/// `s` without its trailing white space.
pub open spec fn trim_end(s: Seq<char>) -> Seq<char>
    decreases s.len(),
{
    if s.len() > 0 && is_white_space(s.last()) {
        trim_end(s.drop_last())
    } else {
        s
    }
}

/// `s` without leading and trailing white space, as `str::trim` gives it.
pub open spec fn trim(s: Seq<char>) -> Seq<char> {
    trim_end(trim_start(s))
}

/// Decides `is_white_space`.
pub fn white_space(c: char) -> (b: bool)
    ensures
        b == is_white_space(c),
{
    ('\u{9}' <= c && c <= '\u{d}') || c == ' ' || c == '\u{85}' || c == '\u{a0}' || c == '\u{1680}'
        || ('\u{2000}' <= c && c <= '\u{200a}') || c == '\u{2028}' || c == '\u{2029}' || c
        == '\u{202f}' || c == '\u{205f}' || c == '\u{3000}'
}

/// Appends the character `c` to the string `s` (std's `String::push`).
#[verifier::external_body]
fn push_char(s: &mut String, c: char)
    ensures
        final(s)@ == old(s)@.push(c),
{
    s.push(c);
}

/// The characters of `s`, in order.
pub fn chars_of(s: &str) -> (v: Vec<char>)
    ensures
        v@ == s@,
{
    let mut v: Vec<char> = Vec::new();
    for c in it: s.chars()
        invariant
            v@ == it.seq().take(it.index() as int),
    {
        v.push(c);
    }
    v
}

/// The string whose characters are `cs`.
pub fn string_from_chars(cs: &[char]) -> (s: String)
    ensures
        s@ == cs@,
{
    let mut s = String::new();
    let mut i: usize = 0;
    while i < cs.len()
        invariant
            i <= cs@.len(),
            s@ == cs@.subrange(0, i as int),
        decreases cs@.len() - i,
    {
        push_char(&mut s, cs[i]);
        i = i + 1;
        assert(s@ =~= cs@.subrange(0, i as int));
    }
    assert(cs@.subrange(0, cs@.len() as int) =~= cs@);
    s
}

/// The leading run of non-white-space characters of `s`.
pub open spec fn leading_word(s: Seq<char>) -> Seq<char>
    decreases s.len(),
{
    if s.len() == 0 || is_white_space(s[0]) {
        Seq::empty()
    } else {
        seq![s[0]] + leading_word(s.drop_first())
    }
}

/// The first white-space separated word of `s`, or the empty text when `s`
/// holds none: what `s.split_whitespace().next().unwrap_or("")` gives.
pub open spec fn first_word(s: Seq<char>) -> Seq<char> {
    leading_word(trim_start(s))
}

/// Whether `p` occurs in `s` at position `k`.
pub open spec fn occurs_at(s: Seq<char>, p: Seq<char>, k: int) -> bool {
    0 <= k && k + p.len() <= s.len() && s.subrange(k, k + p.len()) == p
}

/// The first position at or after `k` where `p` occurs in `s`.
pub open spec fn find_from(s: Seq<char>, p: Seq<char>, k: int) -> Option<int>
    decreases s.len() + 1 - k,
{
    if k < 0 || k + p.len() > s.len() {
        None
    } else if occurs_at(s, p, k) {
        Some(k)
    } else {
        find_from(s, p, k + 1)
    }
}

/// Whether `s` contains `p`.
pub open spec fn contains(s: Seq<char>, p: Seq<char>) -> bool {
    find_from(s, p, 0) is Some
}

/// Whether `s` begins with `p`.
pub open spec fn starts_with(s: Seq<char>, p: Seq<char>) -> bool {
    p.len() <= s.len() && s.subrange(0, p.len() as int) == p
}

/// The second piece of `s` split at the non-empty separator `p`: the text
/// between the first occurrence of `p` and the next one (or the end), or
/// `None` when `p` does not occur; what `s.split(p).nth(1)` gives.
pub open spec fn piece_after(s: Seq<char>, p: Seq<char>) -> Option<Seq<char>> {
    match find_from(s, p, 0) {
        None => None,
        Some(i) => {
            let start = i + p.len();
            match find_from(s, p, start) {
                None => Some(s.subrange(start, s.len() as int)),
                Some(j) => Some(s.subrange(start, j)),
            }
        },
    }
}

/// A position that `find_from` reports is an occurrence of `p` at or after
/// the starting point.
pub proof fn lemma_find_from_occurs(s: Seq<char>, p: Seq<char>, k: int)
    ensures
        find_from(s, p, k) matches Some(i) ==> k <= i && occurs_at(s, p, i),
    decreases s.len() + 1 - k,
{
    if k < 0 || k + p.len() > s.len() {
    } else if occurs_at(s, p, k) {
    } else {
        lemma_find_from_occurs(s, p, k + 1);
    }
}

/// The position of the first character of `s` that is not white space (the
/// length of `s` when there is none): `s` from there on is `trim_start(s)`.
pub fn skip_white_space(s: &[char]) -> (i: usize)
    ensures
        i <= s@.len(),
        trim_start(s@) == s@.subrange(i as int, s@.len() as int),
{
    let n = s.len();
    let mut i: usize = 0;
    assert(s@.subrange(0, n as int) =~= s@);
    while i < n && white_space(s[i])
        invariant
            i <= n,
            n == s@.len(),
            trim_start(s@) == trim_start(s@.subrange(i as int, n as int)),
        decreases n - i,
    {
        assert(s@.subrange(i as int, n as int).drop_first() =~= s@.subrange(i + 1, n as int));
        i = i + 1;
    }
    if i == n {
        assert(s@.subrange(i as int, n as int) =~= Seq::<char>::empty());
    }
    i
}

/// `s` with white space removed from both ends.
pub fn trim_chars(s: &[char]) -> (r: Vec<char>)
    ensures
        r@ == trim(s@),
{
    let n = s.len();
    let i = skip_white_space(s);
    let mut j: usize = n;
    while j > i && white_space(s[j - 1])
        invariant
            i <= j <= n,
            n == s@.len(),
            trim_end(s@.subrange(i as int, n as int)) == trim_end(s@.subrange(i as int, j as int)),
        decreases j,
    {
        assert(s@.subrange(i as int, j as int).drop_last() =~= s@.subrange(i as int, j - 1));
        j = j - 1;
    }
    if j == i {
        assert(s@.subrange(i as int, j as int) =~= Seq::<char>::empty());
    }
    assert(trim(s@) == s@.subrange(i as int, j as int));
    copy_range(s, i, j)
}

/// The characters of `s` from position `from` up to (not including) `to`.
pub fn copy_range(s: &[char], from: usize, to: usize) -> (r: Vec<char>)
    requires
        from <= to <= s@.len(),
    ensures
        r@ == s@.subrange(from as int, to as int),
{
    let mut r: Vec<char> = Vec::new();
    let mut k: usize = from;
    while k < to
        invariant
            from <= k <= to,
            to <= s@.len(),
            r@ == s@.subrange(from as int, k as int),
        decreases to - k,
    {
        r.push(s[k]);
        k = k + 1;
        assert(r@ =~= s@.subrange(from as int, k as int));
    }
    r
}

/// The end of the run of non-white-space characters of `s` that starts at
/// `from`: `s` from `from` up to there is `leading_word` of `s` from `from` on.
pub fn word_end(s: &[char], from: usize) -> (k: usize)
    requires
        from <= s@.len(),
    ensures
        from <= k <= s@.len(),
        leading_word(s@.subrange(from as int, s@.len() as int)) == s@.subrange(from as int, k as int),
{
    let n = s.len();
    let mut k: usize = from;
    assert(s@.subrange(from as int, from as int) + leading_word(s@.subrange(from as int, n as int))
        =~= leading_word(s@.subrange(from as int, n as int)));
    while k < n && !white_space(s[k])
        invariant
            from <= k <= n,
            n == s@.len(),
            leading_word(s@.subrange(from as int, n as int)) == s@.subrange(from as int, k as int)
                + leading_word(s@.subrange(k as int, n as int)),
        decreases n - k,
    {
        assert(s@.subrange(k as int, n as int).drop_first() =~= s@.subrange(k + 1, n as int));
        assert(s@.subrange(from as int, k + 1) =~= s@.subrange(from as int, k as int) + seq![
            s@[k as int],
        ]);
        k = k + 1;
    }
    assert(leading_word(s@.subrange(k as int, n as int)) =~= Seq::<char>::empty());
    assert(s@.subrange(from as int, k as int) + Seq::<char>::empty() =~= s@.subrange(
        from as int,
        k as int,
    ));
    k
}

/// The first white-space separated word of `s`, or nothing.
pub fn first_word_chars(s: &[char]) -> (r: Vec<char>)
    ensures
        r@ == first_word(s@),
{
    let i = skip_white_space(s);
    let k = word_end(s, i);
    copy_range(s, i, k)
}

/// Whether `p` occurs in `s` at position `k`.
pub fn matches_at(s: &[char], p: &[char], k: usize) -> (b: bool)
    ensures
        b == occurs_at(s@, p@, k as int),
{
    if k > s.len() || p.len() > s.len() - k {
        return false;
    }
    let mut m: usize = 0;
    while m < p.len()
        invariant
            m <= p@.len(),
            k + p@.len() <= s@.len(),
            s@.len() == s.len(),
            forall|q: int| 0 <= q < m ==> s@[k + q] == p@[q],
        decreases p@.len() - m,
    {
        if s[k + m] != p[m] {
            assert(s@.subrange(k as int, k + p@.len())[m as int] != p@[m as int]);
            return false;
        }
        m = m + 1;
    }
    assert(s@.subrange(k as int, k + p@.len()) =~= p@);
    true
}

/// The first position at or after `k` where `p` occurs in `s`.
pub fn find_chars(s: &[char], p: &[char], k: usize) -> (r: Option<usize>)
    requires
        p@.len() > 0,
    ensures
        r matches Some(i) ==> find_from(s@, p@, k as int) == Some(i as int),
        r is None ==> find_from(s@, p@, k as int) is None,
{
    let mut i: usize = k;
    loop
        invariant
            k <= i,
            p@.len() > 0,
            s@.len() == s.len(),
            find_from(s@, p@, k as int) == find_from(s@, p@, i as int),
        decreases s@.len() + 1 - i,
    {
        if i > s.len() || p.len() > s.len() - i {
            return None;
        }
        if matches_at(s, p, i) {
            return Some(i);
        }
        i = i + 1;
    }
}

/// Whether `s` contains `p`.
pub fn contains_chars(s: &[char], p: &[char]) -> (b: bool)
    requires
        p@.len() > 0,
    ensures
        b == contains(s@, p@),
{
    find_chars(s, p, 0).is_some()
}

/// Whether `s` begins with `p`.
pub fn starts_with_chars(s: &[char], p: &[char]) -> (b: bool)
    ensures
        b == starts_with(s@, p@),
{
    matches_at(s, p, 0)
}

/// Whether `s` and `p` hold the same characters.
pub fn equal_chars(s: &[char], p: &[char]) -> (b: bool)
    ensures
        b == (s@ == p@),
{
    assert(s@.subrange(0, s@.len() as int) =~= s@);
    s.len() == p.len() && matches_at(s, p, 0)
}

/// The second piece of `s` split at `p` (see `piece_after`).
pub fn piece_after_chars(s: &[char], p: &[char]) -> (r: Option<Vec<char>>)
    requires
        p@.len() > 0,
    ensures
        r matches Some(v) ==> piece_after(s@, p@) == Some(v@),
        r is None ==> piece_after(s@, p@) is None,
{
    match find_chars(s, p, 0) {
        None => None,
        Some(i) => {
            proof {
                lemma_find_from_occurs(s@, p@, 0);
                assert(occurs_at(s@, p@, i as int));
                assert(s@.len() == s.len() && p@.len() == p.len());
            }
            let start = i + p.len();
            match find_chars(s, p, start) {
                None => Some(copy_range(s, start, s.len())),
                Some(j) => {
                    proof {
                        lemma_find_from_occurs(s@, p@, start as int);
                        assert(occurs_at(s@, p@, j as int));
                    }
                    Some(copy_range(s, start, j))
                },
            }
        },
    }
}

} // verus!
