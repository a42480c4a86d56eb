//! Decimal digits: reading a `u8` the way `str::parse::<u8>` does, and
//! writing one the way `{}` formatting does.

use vstd::prelude::*;

verus! {

/// Whether `c` is one of the ASCII digits `0` to `9`.
pub open spec fn is_digit(c: char) -> bool {
    '0' <= c && c <= '9'
}

/// The value of the digit `c`.
pub open spec fn digit_value(c: char) -> int {
    c as int - '0' as int
}

/// The ASCII digit for `d`, for `d < 10`.
pub open spec fn digit_char(d: int) -> char {
    (d + '0' as int) as char
}

/// Whether every character of `s` is a digit.
pub open spec fn all_digits(s: Seq<char>) -> bool {
    forall|i: int| 0 <= i < s.len() ==> is_digit(#[trigger] s[i])
}

/// The number that the digits `s` denote, most significant first.
pub open spec fn decimal_value(s: Seq<char>) -> int
    decreases s.len(),
{
    if s.len() == 0 {
        0
    } else {
        decimal_value(s.drop_last()) * 10 + digit_value(s.last())
    }
}

/// The digits of an unsigned number in text form: the text without one
/// leading `+`, if it has one.
pub open spec fn unsigned_digits(s: Seq<char>) -> Seq<char> {
    if s.len() > 0 && s[0] == '+' {
        s.drop_first()
    } else {
        s
    }
}

/// What `str::parse::<u8>` gives for the text `s`: an optional `+`, then one
/// or more ASCII digits whose value fits in a `u8`; anything else is refused.
pub open spec fn parse_u8(s: Seq<char>) -> Option<u8> {
    let d = unsigned_digits(s);
    if d.len() > 0 && all_digits(d) && decimal_value(d) <= 255 {
        Some(decimal_value(d) as u8)
    } else {
        None
    }
}

/// The shortest decimal form of `n`, as `{}` writes an unsigned integer.
pub open spec fn decimal(n: nat) -> Seq<char>
    decreases n,
{
    if n < 10 {
        seq![digit_char(n as int)]
    } else {
        decimal(n / 10).push(digit_char((n % 10) as int))
    }
}

/// The value of a prefix of a digit string is at most that of the whole.
proof fn lemma_prefix_value_le(d: Seq<char>, m: int)
    requires
        0 <= m <= d.len(),
        all_digits(d),
    ensures
        decimal_value(d.subrange(0, m)) <= decimal_value(d),
    decreases d.len(),
{
    if m == d.len() {
        assert(d.subrange(0, m) =~= d);
    } else {
        let e = d.drop_last();
        assert(d.subrange(0, m) =~= e.subrange(0, m));
        assert(all_digits(e)) by {
            assert forall|i: int| 0 <= i < e.len() implies is_digit(#[trigger] e[i]) by {
                assert(e[i] == d[i]);
            }
        }
        lemma_prefix_value_le(e, m);
        lemma_value_nonneg(e);
        assert(is_digit(d[d.len() - 1]));
        assert(decimal_value(e) <= decimal_value(d));
    }
}

/// A digit string denotes a non-negative number.
proof fn lemma_value_nonneg(d: Seq<char>)
    requires
        all_digits(d),
    ensures
        decimal_value(d) >= 0,
    decreases d.len(),
{
    if d.len() > 0 {
        let e = d.drop_last();
        assert(all_digits(e)) by {
            assert forall|i: int| 0 <= i < e.len() implies is_digit(#[trigger] e[i]) by {
                assert(e[i] == d[i]);
            }
        }
        lemma_value_nonneg(e);
        assert(is_digit(d[d.len() - 1]));
    }
}

/// The ASCII digit for `d`.
pub fn digit_to_char(d: u8) -> (c: char)
    requires
        d < 10,
    ensures
        c == digit_char(d as int),
        is_digit(c),
        digit_value(c) == d,
{
    let c = (d + 48) as char;
    c
}

/// Reads the text `s` as a `u8`, as `str::parse::<u8>` does.
pub fn parse_u8_chars(s: &[char]) -> (r: Option<u8>)
    ensures
        r == parse_u8(s@),
{
    let n = s.len();
    let start: usize = if n > 0 && s[0] == '+' {
        1
    } else {
        0
    };
    let ghost d = unsigned_digits(s@);
    assert(d =~= s@.subrange(start as int, n as int));
    if start == n {
        return None;
    }
    let mut acc: u32 = 0;
    let mut k: usize = start;
    assert(s@.subrange(start as int, start as int) =~= Seq::<char>::empty());
    while k < n
        invariant
            start <= k <= n,
            n == s@.len(),
            d == s@.subrange(start as int, n as int),
            d == unsigned_digits(s@),
            acc == decimal_value(s@.subrange(start as int, k as int)),
            acc <= 255,
            all_digits(s@.subrange(start as int, k as int)),
        decreases n - k,
    {
        let c = s[k];
        if !('0' <= c && c <= '9') {
            assert(!is_digit(d[k - start]));
            return None;
        }
        let dv = (c as u32) - 48;
        let ghost next = s@.subrange(start as int, k + 1);
        assert(next.drop_last() =~= s@.subrange(start as int, k as int));
        acc = acc * 10 + dv;
        assert(all_digits(next)) by {
            assert forall|i: int| 0 <= i < next.len() implies is_digit(#[trigger] next[i]) by {
                if i < next.len() - 1 {
                    assert(next[i] == s@.subrange(start as int, k as int)[i]);
                }
            }
        }
        if acc > 255 {
            proof {
                if all_digits(d) {
                    assert(d.subrange(0, k + 1 - start) =~= next);
                    lemma_prefix_value_le(d, k + 1 - start);
                }
            }
            return None;
        }
        k = k + 1;
    }
    Some(acc as u8)
}

/// The decimal form of `n`.
pub fn decimal_chars(n: u8) -> (r: Vec<char>)
    ensures
        r@ == decimal(n as nat),
{
    let mut v: Vec<char> = Vec::new();
    if n >= 100 {
        v.push(digit_to_char(n / 100));
    }
    if n >= 10 {
        v.push(digit_to_char((n / 10) % 10));
    }
    v.push(digit_to_char(n % 10));
    proof {
        reveal_with_fuel(decimal, 3);
        if n >= 100 {
            assert(decimal(n as nat / 10) =~= seq![digit_char((n / 100) as int), digit_char(((n / 10) % 10) as int)]);
        } else if n >= 10 {
            assert(decimal(n as nat / 10) =~= seq![digit_char((n / 10) as int)]);
        }
        assert(v@ =~= decimal(n as nat));
    }
    v
}

/// The decimal form of a number reads back as that number: what `{}` writes
/// of a `u8`, `parse::<u8>` reads as the same `u8`.
pub proof fn lemma_decimal_round_trip(n: u8)
    ensures
        parse_u8(decimal(n as nat)) == Some(n),
{
    lemma_decimal_digits(n as nat);
    assert(unsigned_digits(decimal(n as nat)) == decimal(n as nat));
}

/// The decimal form of `n` is a non-empty digit string of value `n`.
pub proof fn lemma_decimal_digits(n: nat)
    ensures
        decimal(n).len() > 0,
        all_digits(decimal(n)),
        decimal_value(decimal(n)) == n,
    decreases n,
{
    if n < 10 {
        assert(decimal_value(decimal(n)) == decimal_value(decimal(n).drop_last()) * 10
            + digit_value(decimal(n).last()));
        assert(decimal(n).drop_last() =~= Seq::<char>::empty());
    } else {
        lemma_decimal_digits(n / 10);
        let s = decimal(n);
        assert(s.drop_last() =~= decimal(n / 10));
        assert forall|i: int| 0 <= i < s.len() implies is_digit(#[trigger] s[i]) by {
            if i < s.len() - 1 {
                assert(s[i] == decimal(n / 10)[i]);
            }
        }
    }
}

} // verus!
