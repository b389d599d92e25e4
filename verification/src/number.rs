//! Decimal literals: which texts denote a number.
//!
//! The grammar is that of Rust's floating-point parsing, letters in either case:
//!
//! ```text
//! Literal  ::= Sign? ( 'inf' | 'infinity' | 'nan' | Number )
//! Number   ::= Mantissa Exponent?
//! Mantissa ::= Digit+ | Digit+ '.' Digit* | Digit* '.' Digit+
//! Exponent ::= 'e' Sign? Digit+
//! ```
//!
//! A text of this grammar is kept as it is written; what number it denotes is left to
//! whoever reads it.

use crate::text::{index_of, lemma_find_char, piece};
use vstd::prelude::*;

verus! {

/// An ASCII decimal digit.
pub open spec fn is_digit(c: char) -> bool {
    '0' <= c && c <= '9'
}

/// A plus or a minus sign.
pub open spec fn is_sign(c: char) -> bool {
    c == '+' || c == '-'
}

/// The letter that opens an exponent.
pub open spec fn is_exp_mark(c: char) -> bool {
    c == 'e' || c == 'E'
}

/// Every character is a digit. This holds of the empty text.
pub open spec fn all_digits(s: Seq<char>) -> bool {
    forall|i: int| 0 <= i < s.len() ==> is_digit(#[trigger] s[i])
}

/// `c` is the lower-case ASCII letter `letter`, or its upper-case form.
pub open spec fn same_letter(c: char, letter: char) -> bool {
    c == letter || c as int + 32 == letter as int
}

/// `s` spells the lower-case word `word`, letters in either case.
pub open spec fn spells(s: Seq<char>, word: Seq<char>) -> bool {
    s.len() == word.len() && forall|i: int| 0 <= i < s.len() ==> same_letter(#[trigger] s[i], word[i])
}

/// One of the three words that denote an infinity or no number.
pub open spec fn is_special(s: Seq<char>) -> bool {
    spells(s, seq!['i', 'n', 'f']) || spells(s, seq!['i', 'n', 'f', 'i', 'n', 'i', 't', 'y'])
        || spells(s, seq!['n', 'a', 'n'])
}

/// `s` without its sign, if it begins with one.
pub open spec fn unsigned_part(s: Seq<char>) -> Seq<char> {
    if s.len() > 0 && is_sign(s[0]) {
        s.skip(1)
    } else {
        s
    }
}

/// Digits with at most one point among them, and at least one digit.
pub open spec fn is_mantissa(m: Seq<char>) -> bool {
    ||| m.len() > 0 && all_digits(m)
    ||| exists|k: int| #[trigger] point_at(m, k)
}

/// `m` has its one point at `k`, digits on both sides of it, and at least one digit.
pub open spec fn point_at(m: Seq<char>, k: int) -> bool {
    0 <= k < m.len() && m[k] == '.' && m.len() > 1 && all_digits(m.take(k)) && all_digits(
        m.skip(k + 1),
    )
}

/// An exponent: its mark, an optional sign, and at least one digit.
pub open spec fn is_exponent(x: Seq<char>) -> bool {
    x.len() > 0 && is_exp_mark(x[0]) && unsigned_part(x.skip(1)).len() > 0 && all_digits(
        unsigned_part(x.skip(1)),
    )
}

/// A mantissa, with or without an exponent after it.
pub open spec fn is_number(s: Seq<char>) -> bool {
    ||| is_mantissa(s)
    ||| exists|e: int| #[trigger] exponent_at(s, e)
}

/// `s` is a mantissa up to `e` and an exponent from there.
pub open spec fn exponent_at(s: Seq<char>, e: int) -> bool {
    0 < e < s.len() && is_mantissa(s.take(e)) && is_exponent(s.skip(e))
}

/// `s` is a decimal literal.
pub open spec fn decimal_literal(s: Seq<char>) -> bool {
    is_special(unsigned_part(s)) || is_number(unsigned_part(s))
}

/// A mantissa holds digits and points only.
pub proof fn lemma_mantissa_chars(m: Seq<char>)
    requires
        is_mantissa(m),
    ensures
        m.len() > 0,
        forall|i: int| 0 <= i < m.len() ==> is_digit(#[trigger] m[i]) || m[i] == '.',
{
    if !(m.len() > 0 && all_digits(m)) {
        let k = choose|k: int| #[trigger] point_at(m, k);
        assert forall|i: int| 0 <= i < m.len() implies is_digit(#[trigger] m[i]) || m[i] == '.' by {
            if i < k {
                assert(m.take(k)[i] == m[i]);
            } else if i > k {
                assert(m.skip(k + 1)[i - k - 1] == m[i]);
            }
        }
    }
}

/// Whether `c` is an ASCII decimal digit.
pub fn digit(c: char) -> (b: bool)
    ensures
        b == is_digit(c),
{
    c >= '0' && c <= '9'
}

/// Whether every character of `s` is a digit.
pub fn digits_only(s: &[char]) -> (b: bool)
    ensures
        b == all_digits(s@),
{
    let mut i: usize = 0;
    while i < s.len()
        invariant
            i <= s.len(),
            forall|j: int| 0 <= j < i ==> is_digit(#[trigger] s@[j]),
        decreases s.len() - i,
    {
        if !digit(s[i]) {
            return false;
        }
        i += 1;
    }
    true
}

/// Whether `s` spells `word`, letters in either case. `word` is in lower case.
fn spells_word(s: &[char], word: &[char]) -> (b: bool)
    requires
        forall|i: int| 0 <= i < word.len() ==> 'a' <= #[trigger] word[i] && word[i] <= 'z',
    ensures
        b == spells(s@, word@),
{
    if s.len() != word.len() {
        return false;
    }
    let mut i: usize = 0;
    while i < s.len()
        invariant
            i <= s.len(),
            s.len() == word.len(),
            forall|i: int| 0 <= i < word.len() ==> 'a' <= #[trigger] word[i] && word[i] <= 'z',
            forall|j: int| 0 <= j < i ==> same_letter(#[trigger] s@[j], word@[j]),
        decreases s.len() - i,
    {
        let c = s[i];
        let l = word[i];
        assert('a' <= word[i as int] && word[i as int] <= 'z');
        if !(c == l || (c >= 'A' && c <= 'Z' && c as u32 + 32 == l as u32)) {
            assert(!same_letter(s@[i as int], word@[i as int]));
            return false;
        }
        i += 1;
    }
    true
}

/// Whether `s` is one of the three special words.
fn special(s: &[char]) -> (b: bool)
    ensures
        b == is_special(s@),
{
    let inf: [char; 3] = ['i', 'n', 'f'];
    let infinity: [char; 8] = ['i', 'n', 'f', 'i', 'n', 'i', 't', 'y'];
    let nan: [char; 3] = ['n', 'a', 'n'];
    assert(inf@ =~= seq!['i', 'n', 'f']);
    assert(infinity@ =~= seq!['i', 'n', 'f', 'i', 'n', 'i', 't', 'y']);
    assert(nan@ =~= seq!['n', 'a', 'n']);
    spells_word(s, inf.as_slice()) || spells_word(s, infinity.as_slice()) || spells_word(
        s,
        nan.as_slice(),
    )
}

/// Whether `m` is a mantissa.
fn mantissa(m: &[char]) -> (b: bool)
    ensures
        b == is_mantissa(m@),
{
    let k = index_of(m, '.', 0);
    proof {
        lemma_find_char(m@, '.', 0);
    }
    if k == m.len() {
        assert forall|j: int| !point_at(m@, j) by {}
        m.len() > 0 && digits_only(m)
    } else {
        let ok = m.len() > 1 && digits_only(piece(m, 0, k)) && digits_only(
            piece(m, k + 1, m.len()),
        );
        proof {
            assert(m@.subrange(0, k as int) =~= m@.take(k as int));
            assert(m@.subrange(k + 1, m.len() as int) =~= m@.skip(k + 1));
            assert(!is_digit(m@[k as int]));
            assert forall|j: int| j != k implies !point_at(m@, j) by {
                if point_at(m@, j) {
                    if j < k {
                    } else {
                        assert(m@.take(j)[k as int] == m@[k as int]);
                    }
                }
            }
            assert(ok == point_at(m@, k as int));
        }
        ok
    }
}

/// Whether `x` is an exponent.
fn exponent(x: &[char]) -> (b: bool)
    ensures
        b == is_exponent(x@),
{
    if x.len() == 0 || !(x[0] == 'e' || x[0] == 'E') {
        return false;
    }
    let rest = piece(x, 1, x.len());
    assert(rest@ =~= x@.skip(1));
    let from: usize = if rest.len() > 0 && (rest[0] == '+' || rest[0] == '-') {
        1
    } else {
        0
    };
    let d = piece(rest, from, rest.len());
    assert(d@ =~= unsigned_part(rest@));
    d.len() > 0 && digits_only(d)
}

/// The first index at which an exponent mark stands, or the length when there is none.
fn exp_mark_index(s: &[char]) -> (e: usize)
    ensures
        e <= s.len(),
        e < s.len() ==> is_exp_mark(s@[e as int]),
        forall|i: int| 0 <= i < e ==> !is_exp_mark(#[trigger] s@[i]),
{
    let mut e: usize = 0;
    while e < s.len() && !(s[e] == 'e' || s[e] == 'E')
        invariant
            e <= s.len(),
            forall|i: int| 0 <= i < e ==> !is_exp_mark(#[trigger] s@[i]),
        decreases s.len() - e,
    {
        e += 1;
    }
    e
}

/// Whether `s` is a mantissa with or without an exponent.
fn number(s: &[char]) -> (b: bool)
    ensures
        b == is_number(s@),
{
    let e = exp_mark_index(s);
    if e == s.len() {
        proof {
            assert forall|j: int| !exponent_at(s@, j) by {
                if exponent_at(s@, j) {
                    assert(s@.skip(j)[0] == s@[j]);
                }
            }
        }
        mantissa(s)
    } else {
        let ok = mantissa(piece(s, 0, e)) && exponent(piece(s, e, s.len()));
        proof {
            assert(s@.subrange(0, e as int) =~= s@.take(e as int));
            assert(s@.subrange(e as int, s.len() as int) =~= s@.skip(e as int));
            if is_mantissa(s@) {
                lemma_mantissa_chars(s@);
                assert(is_digit(s@[e as int]) || s@[e as int] == '.');
            }
            if is_mantissa(s@.take(e as int)) {
                lemma_mantissa_chars(s@.take(e as int));
            }
            assert forall|j: int| j != e implies !exponent_at(s@, j) by {
                if exponent_at(s@, j) {
                    assert(s@.skip(j)[0] == s@[j]);
                    if j > e {
                        lemma_mantissa_chars(s@.take(j));
                        assert(s@.take(j)[e as int] == s@[e as int]);
                    }
                }
            }
            assert(ok == exponent_at(s@, e as int));
        }
        ok
    }
}

/// Whether `s` is a decimal literal.
pub fn is_decimal_literal(s: &[char]) -> (b: bool)
    ensures
        b == decimal_literal(s@),
{
    let from: usize = if s.len() > 0 && (s[0] == '+' || s[0] == '-') {
        1
    } else {
        0
    };
    let u = piece(s, from, s.len());
    assert(u@ =~= unsigned_part(s@));
    special(u) || number(u)
}

} // verus!
