//! The text of a floating-point number, as the standard library documents
//! what its `f64` parser accepts: an optional sign, then `inf`, `infinity`
//! or `nan` in any case, or a decimal number with an optional exponent.

use vstd::prelude::*;
use crate::chars::{ascii_digit, is_ascii_digit};

verus! {

/// Whether `c` is the lower-case letter `l`, or the upper-case form of it.
pub open spec fn letter_is(c: char, l: char) -> bool {
    c == l || ('A' <= c && c <= 'Z' && c as int + 32 == l as int)
}

/// Whether `s` spells the lower-case word `w`, its letters in any case.
pub open spec fn spells(s: Seq<char>, w: Seq<char>) -> bool {
    &&& s.len() == w.len()
    &&& forall|i: int| 0 <= i < s.len() ==> letter_is(#[trigger] s[i], w[i])
}

/// Whether every character of `s` is an ASCII digit.
pub open spec fn all_digits(s: Seq<char>) -> bool {
    forall|i: int| 0 <= i < s.len() ==> ascii_digit(#[trigger] s[i])
}

/// `Digit+ | Digit+ '.' Digit* | Digit* '.' Digit+`
pub open spec fn mantissa_text(s: Seq<char>) -> bool {
    ||| s.len() > 0 && all_digits(s)
    ||| s.len() > 1 && exists|d: int|
        0 <= d < s.len() && #[trigger] s[d] == '.' && all_digits(s.take(d)) && all_digits(
            s.skip(d + 1),
        )
}

/// The digits of an exponent, after its `e`: `Sign? Digit+`.
pub open spec fn exponent_text(s: Seq<char>) -> bool {
    ||| s.len() > 0 && all_digits(s)
    ||| s.len() > 1 && (s[0] == '+' || s[0] == '-') && all_digits(s.skip(1))
}

/// A decimal number with an optional exponent: `Mantissa ('e' Exponent)?`.
pub open spec fn decimal_text(s: Seq<char>) -> bool {
    ||| mantissa_text(s)
    ||| exists|k: int|
        0 <= k < s.len() && letter_is(#[trigger] s[k], 'e') && mantissa_text(s.take(k))
            && exponent_text(s.skip(k + 1))
}

/// An unsigned floating-point number: `inf`, `infinity`, `nan`, or a
/// decimal number.
pub open spec fn unsigned_float_text(s: Seq<char>) -> bool {
    ||| spells(s, seq!['i', 'n', 'f'])
    ||| spells(s, seq!['i', 'n', 'f', 'i', 'n', 'i', 't', 'y'])
    ||| spells(s, seq!['n', 'a', 'n'])
    ||| decimal_text(s)
}

/// Whether `s` is the text of a floating-point number.
pub open spec fn float_text(s: Seq<char>) -> bool {
    if s.len() > 0 && (s[0] == '+' || s[0] == '-') {
        unsigned_float_text(s.skip(1))
    } else {
        unsigned_float_text(s)
    }
}

/// Whether `chars[from..to]` holds only ASCII digits.
fn all_digits_in(chars: &Vec<char>, from: usize, to: usize) -> (r: bool)
    requires
        from <= to <= chars.len(),
    ensures
        r == all_digits(chars@.subrange(from as int, to as int)),
{
    let ghost s = chars@.subrange(from as int, to as int);
    let mut i = from;
    while i < to
        invariant
            from <= i <= to <= chars.len(),
            s == chars@.subrange(from as int, to as int),
            forall|j: int| 0 <= j < i - from ==> ascii_digit(#[trigger] s[j]),
        decreases to - i,
    {
        if !is_ascii_digit(chars[i]) {
            assert(s[i - from] == chars@[i as int]);
            return false;
        }
        assert(s[i - from] == chars@[i as int]);
        i = i + 1;
    }
    true
}

/// The first position in `from..to` that holds `c`, or `to`.
fn find_char(chars: &Vec<char>, from: usize, to: usize, c: char, upper: char) -> (p: usize)
    requires
        from <= to <= chars.len(),
    ensures
        from <= p <= to,
        p < to ==> (chars@[p as int] == c || chars@[p as int] == upper),
        forall|j: int| from <= j < p ==> chars@[j] != c && chars@[j] != upper,
{
    let mut i = from;
    while i < to
        invariant
            from <= i <= to <= chars.len(),
            forall|j: int| from <= j < i ==> chars@[j] != c && chars@[j] != upper,
        decreases to - i,
    {
        if chars[i] == c || chars[i] == upper {
            return i;
        }
        i = i + 1;
    }
    to
}

/// Whether `chars[from..to]` is a mantissa.
fn mantissa_in(chars: &Vec<char>, from: usize, to: usize) -> (r: bool)
    requires
        from <= to <= chars.len(),
    ensures
        r == mantissa_text(chars@.subrange(from as int, to as int)),
{
    let ghost s = chars@.subrange(from as int, to as int);
    if from == to {
        return false;
    }
    let d = find_char(chars, from, to, '.', '.');
    if d == to {
        assert forall|e: int| 0 <= e < s.len() implies s[e] != '.' by {
            assert(s[e] == chars@[from + e]);
        }
        return all_digits_in(chars, from, to);
    }
    let ghost k = d - from;
    assert(s[k] == '.');
    assert(!ascii_digit(s[k]));
    let left = all_digits_in(chars, from, d);
    let right = all_digits_in(chars, d + 1, to);
    assert(s.take(k) =~= chars@.subrange(from as int, d as int));
    assert(s.skip(k + 1) =~= chars@.subrange(d + 1, to as int));
    if left && right && to - from > 1 {
        return true;
    }
    assert forall|k2: int|
        0 <= k2 < s.len() && #[trigger] s[k2] == '.' && all_digits(s.take(k2)) implies k2 == k by {
        if k2 < k {
            assert(s[k2] == chars@[from + k2]);
        } else if k2 > k {
            assert(s.take(k2)[k] == s[k]);
        }
    }
    false
}

/// Whether `chars[from..to]` is an exponent's sign and digits.
fn exponent_in(chars: &Vec<char>, from: usize, to: usize) -> (r: bool)
    requires
        from <= to <= chars.len(),
    ensures
        r == exponent_text(chars@.subrange(from as int, to as int)),
{
    let ghost s = chars@.subrange(from as int, to as int);
    if from == to {
        return false;
    }
    if chars[from] == '+' || chars[from] == '-' {
        assert(s[0] == chars@[from as int]);
        assert(!ascii_digit(s[0]));
        assert(s.skip(1) =~= chars@.subrange(from + 1, to as int));
        to - from > 1 && all_digits_in(chars, from + 1, to)
    } else {
        assert(s[0] == chars@[from as int]);
        all_digits_in(chars, from, to)
    }
}

/// Whether `chars[from..to]` is a decimal number.
fn decimal_in(chars: &Vec<char>, from: usize, to: usize) -> (r: bool)
    requires
        from <= to <= chars.len(),
    ensures
        r == decimal_text(chars@.subrange(from as int, to as int)),
{
    let ghost s = chars@.subrange(from as int, to as int);
    let k = find_char(chars, from, to, 'e', 'E');
    assert forall|j: int| 0 <= j < k - from implies !letter_is(#[trigger] s[j], 'e') by {
        assert(s[j] == chars@[from + j]);
    }
    if k == to {
        let m = mantissa_in(chars, from, to);
        assert(!(exists|k2: int|
            0 <= k2 < s.len() && letter_is(#[trigger] s[k2], 'e') && mantissa_text(s.take(k2))
                && exponent_text(s.skip(k2 + 1))));
        return m;
    }
    let ghost kk = k - from;
    assert(s[kk] == chars@[k as int]);
    assert(letter_is(s[kk], 'e'));
    let whole = mantissa_in(chars, from, to);
    let m = mantissa_in(chars, from, k);
    let e = exponent_in(chars, k + 1, to);
    assert(s.take(kk) =~= chars@.subrange(from as int, k as int));
    assert(s.skip(kk + 1) =~= chars@.subrange(k + 1, to as int));
    assert forall|k2: int|
        0 <= k2 < s.len() && letter_is(#[trigger] s[k2], 'e') && mantissa_text(s.take(k2)) implies k2
        == kk by {
        if k2 > kk {
            let t = s.take(k2);
            assert(t[kk] == s[kk]);
            assert(!ascii_digit(t[kk]) && t[kk] != '.');
            if t.len() > 0 && all_digits(t) {
                assert(ascii_digit(t[kk]));
            } else {
                let d = choose|d: int|
                    0 <= d < t.len() && #[trigger] t[d] == '.' && all_digits(t.take(d))
                        && all_digits(t.skip(d + 1));
                if kk < d {
                    assert(t.take(d)[kk] == t[kk]);
                } else if kk > d {
                    assert(t.skip(d + 1)[kk - d - 1] == t[kk]);
                }
            }
        }
    }
    whole || (m && e)
}

/// Whether `chars[from..to]` spells `word`, letters in any case; `upper` is
/// `word` in upper case.
fn spells_in(chars: &Vec<char>, from: usize, to: usize, word: &[char], upper: &[char]) -> (r: bool)
    requires
        from <= to <= chars.len(),
        upper@.len() == word@.len(),
        forall|i: int|
            0 <= i < word@.len() ==> 'a' <= #[trigger] word@[i] <= 'z' && upper@[i] as int + 32
                == word@[i] as int,
    ensures
        r == spells(chars@.subrange(from as int, to as int), word@),
{
    let ghost s = chars@.subrange(from as int, to as int);
    if to - from != word.len() {
        return false;
    }
    let mut i: usize = 0;
    while i < word.len()
        invariant
            to - from == word@.len(),
            upper@.len() == word@.len(),
            from <= to <= chars.len(),
            s == chars@.subrange(from as int, to as int),
            i <= word@.len(),
            forall|j: int|
                0 <= j < word@.len() ==> 'a' <= #[trigger] word@[j] <= 'z' && upper@[j] as int + 32
                    == word@[j] as int,
            forall|j: int| 0 <= j < i ==> letter_is(#[trigger] s[j], word@[j]),
        decreases word.len() - i,
    {
        let c = chars[from + i];
        assert(s[i as int] == c);
        assert('a' <= word@[i as int] <= 'z');
        if c != word[i] && c != upper[i] {
            return false;
        }
        i = i + 1;
    }
    true
}

/// Whether `s` is the text of a floating-point number.
pub fn is_float_text(s: &str) -> (r: bool)
    ensures
        r == float_text(s@),
{
    let n = s.unicode_len();
    let mut chars: Vec<char> = Vec::new();
    let mut i: usize = 0;
    while i < n
        invariant
            n == s@.len(),
            i <= n,
            chars@ == s@.subrange(0, i as int),
        decreases n - i,
    {
        chars.push(s.get_char(i));
        i = i + 1;
        assert(chars@ =~= s@.subrange(0, i as int));
    }
    assert(chars@ =~= s@);
    let from: usize = if n > 0 && (chars[0] == '+' || chars[0] == '-') { 1 } else { 0 };
    assert(chars@.subrange(from as int, n as int) =~= if n > 0 && (s@[0] == '+' || s@[0] == '-') {
        s@.skip(1)
    } else {
        s@
    });
    let inf = ['i', 'n', 'f'];
    let infinity = ['i', 'n', 'f', 'i', 'n', 'i', 't', 'y'];
    let nan = ['n', 'a', 'n'];
    proof {
        assert(inf@ =~= seq!['i', 'n', 'f']);
        assert(infinity@ =~= seq!['i', 'n', 'f', 'i', 'n', 'i', 't', 'y']);
        assert(nan@ =~= seq!['n', 'a', 'n']);
    }
    spells_in(&chars, from, n, &inf, &['I', 'N', 'F']) || spells_in(
        &chars,
        from,
        n,
        &infinity,
        &['I', 'N', 'F', 'I', 'N', 'I', 'T', 'Y'],
    ) || spells_in(&chars, from, n, &nan, &['N', 'A', 'N']) || decimal_in(&chars, from, n)
}

} // verus!
