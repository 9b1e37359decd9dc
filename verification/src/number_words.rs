//! Words that write a number with a fraction.
//!
//! The library does not compute with such numbers. It keeps them as they are
//! written, and knows which words write one.

use crate::text::{
    all_digits, ascii_lower, find, find_either, index_of, index_of_either, is_digit, lemma_found_either,
    lemma_index_of, lowered, spells,
};
use vstd::prelude::*;
use vstd::slice::slice_subrange;

verus! {

/// `s` without one leading sign.
pub open spec fn without_sign(s: Seq<char>) -> Seq<char> {
    if s.len() > 0 && (s[0] == '+' || s[0] == '-') {
        s.skip(1)
    } else {
        s
    }
}

/// Digits with at most one point among them, and at least one digit.
pub open spec fn is_mantissa(s: Seq<char>) -> bool {
    let dot = index_of(s, '.');
    let whole = s.take(dot);
    let fraction = if dot < s.len() {
        s.skip(dot + 1)
    } else {
        seq![]
    };
    all_digits(whole) && all_digits(fraction) && whole.len() + fraction.len() > 0
}

/// What may follow the letter `e`: a sign or none, then at least one digit.
pub open spec fn is_exponent(s: Seq<char>) -> bool {
    let t = without_sign(s);
    t.len() > 0 && all_digits(t)
}

/// A mantissa, and an exponent after the letter `e` where there is one.
pub open spec fn is_plain_number(s: Seq<char>) -> bool {
    let e = index_of_either(s, 'e', 'E');
    is_mantissa(s.take(e)) && (e < s.len() ==> is_exponent(s.skip(e + 1)))
}

/// Does `s` write a number? A sign or none, then `inf`, `infinity` or `nan` in
/// any case of letters, or a plain number.
pub open spec fn is_number_word(s: Seq<char>) -> bool {
    let t = without_sign(s);
    let low = ascii_lower(t);
    low == "inf"@ || low == "infinity"@ || low == "nan"@ || is_plain_number(t)
}

/// `s` without one leading sign.
fn drop_sign(s: &[char]) -> (out: &[char])
    ensures
        out@ == without_sign(s@),
{
    if s.len() > 0 && (s[0] == '+' || s[0] == '-') {
        slice_subrange(s, 1, s.len())
    } else {
        s
    }
}

/// Is every character of `s` a decimal digit?
fn digits_only(s: &[char]) -> (out: bool)
    ensures
        out == all_digits(s@),
{
    let mut i: usize = 0;
    while i < s.len()
        invariant
            i <= s.len(),
            forall|j: int| 0 <= j < i ==> is_digit(#[trigger] s@[j]),
        decreases s.len() - i,
    {
        if !('0' <= s[i] && s[i] <= '9') {
            assert(!is_digit(s@[i as int]));
            return false;
        }
        i += 1;
    }
    true
}

/// Is `s` digits with at most one point among them, and at least one digit?
fn mantissa(s: &[char]) -> (out: bool)
    ensures
        out == is_mantissa(s@),
{
    let dot: usize = find(s, '.');
    let whole: &[char] = slice_subrange(s, 0, dot);
    assert(whole@ == s@.take(dot as int));
    if dot < s.len() {
        let fraction: &[char] = slice_subrange(s, dot + 1, s.len());
        assert(fraction@ == s@.skip(dot + 1));
        digits_only(whole) && digits_only(fraction) && (whole.len() > 0 || fraction.len() > 0)
    } else {
        digits_only(whole) && whole.len() > 0
    }
}

/// Is `s` a mantissa, with an exponent after the letter `e` where there is one?
fn plain_number(s: &[char]) -> (out: bool)
    ensures
        out == is_plain_number(s@),
{
    let e: usize = find_either(s, 'e', 'E');
    let head: &[char] = slice_subrange(s, 0, e);
    assert(head@ == s@.take(e as int));
    if !mantissa(head) {
        return false;
    }
    if e < s.len() {
        let tail: &[char] = slice_subrange(s, e + 1, s.len());
        assert(tail@ == s@.skip(e + 1));
        let t: &[char] = drop_sign(tail);
        t.len() > 0 && digits_only(t)
    } else {
        true
    }
}

/// Does `s` write a number?
pub fn number_word(s: &[char]) -> (out: bool)
    ensures
        out == is_number_word(s@),
{
    let t: &[char] = drop_sign(s);
    let low: Vec<char> = lowered(t);
    spells(low.as_slice(), "inf") || spells(low.as_slice(), "infinity") || spells(
        low.as_slice(),
        "nan",
    ) || plain_number(t)
}

/// Digits with a point among them are a number, as long as there is a digit on either side; so
/// are digits without one.
pub proof fn law_a_fraction_is_a_number(whole: Seq<char>, fraction: Seq<char>)
    requires
        all_digits(whole),
        all_digits(fraction),
        whole.len() + fraction.len() > 0,
    ensures
        is_mantissa(whole + seq!['.'] + fraction),
        whole.len() > 0 ==> is_mantissa(whole),
{
    let s = whole + seq!['.'] + fraction;
    lemma_index_of(s, '.');
    lemma_index_of(whole, '.');
    let dot = index_of(s, '.');
    assert(s[whole.len() as int] == '.');
    assert(dot == whole.len()) by {
        if dot < whole.len() {
            assert(is_digit(whole[dot]));
        }
    }
    assert(s.take(dot) =~= whole);
    assert(s.skip(dot + 1) =~= fraction);
    let none = index_of(whole, '.');
    if none < whole.len() {
        assert(is_digit(whole[none]));
    }
    assert(whole.take(whole.len() as int) =~= whole);
}

/// Nothing but digits and one point at most makes a mantissa, and a point alone makes none.
pub proof fn law_a_mantissa_is_digits_and_a_point(s: Seq<char>, i: int, j: int)
    requires
        is_mantissa(s),
        0 <= i < s.len(),
        0 <= j < s.len(),
    ensures
        is_digit(s[i]) || s[i] == '.',
        s[i] == '.' && s[j] == '.' ==> i == j,
        s.len() == 1 ==> is_digit(s[0]),
{
    lemma_index_of(s, '.');
    lemma_place_in_parts(s, i);
    lemma_place_in_parts(s, j);
    let dot = index_of(s, '.');
    if s.len() == 1 {
        assert(s.take(dot).len() + (if dot < s.len() { s.skip(dot + 1) } else { seq![] }).len() > 0);
    }
}

/// Every place of a text is before its first point, at it, or behind it.
proof fn lemma_place_in_parts(s: Seq<char>, i: int)
    requires
        0 <= i < s.len(),
    ensures
        ({
            let dot = index_of(s, '.');
            &&& 0 <= dot <= s.len()
            &&& i < dot ==> s.take(dot)[i] == s[i] && s[i] != '.'
            &&& i > dot ==> s.skip(dot + 1)[i - dot - 1] == s[i]
            &&& i == dot ==> s[i] == '.'
        }),
{
    lemma_index_of(s, '.');
}

/// A sign in front of a number, and an exponent behind it, leave it a number; a sign alone is
/// none, and neither are two signs.
pub proof fn law_a_sign_and_an_exponent_leave_a_number(m: Seq<char>, x: Seq<char>, e: char, sign: char)
    requires
        is_mantissa(m),
        all_digits(x),
        x.len() > 0,
        e == 'e' || e == 'E',
        sign == '+' || sign == '-',
    ensures
        is_plain_number(m),
        is_number_word(m),
        is_number_word(seq![sign] + m),
        is_plain_number(m + seq![e] + x),
        is_plain_number(m + seq![e] + (seq![sign] + x)),
        !is_plain_number(m + seq![e]),
        !is_plain_number(m + seq![e, sign]),
        !is_plain_number(seq![sign] + m),
{
    lemma_cut_at_exponent(m, seq![], e);
    lemma_index_of(m, '.');
    assert(m.len() > 0);
    law_a_mantissa_is_digits_and_a_point(m, 0, 0);
    lemma_no_exponent(m);
    assert(is_plain_number(m));
    assert(without_sign(m) == m);
    assert((seq![sign] + m).skip(1) =~= m);
    lemma_cut_at_exponent(m, x, e);
    assert(is_digit(x[0]));
    assert(without_sign(x) == x);
    lemma_cut_at_exponent(m, seq![sign] + x, e);
    assert((seq![sign] + x).skip(1) =~= x);
    assert(m + seq![e] + Seq::<char>::empty() =~= m + seq![e]);
    lemma_cut_at_exponent(m, seq![sign], e);
    assert(m + seq![e] + seq![sign] =~= m + seq![e, sign]);
    assert(seq![sign].skip(1) =~= Seq::<char>::empty());
    let t = seq![sign] + m;
    if is_plain_number(t) {
        lemma_found_either(t, 'e', 'E');
        let n = index_of_either(t, 'e', 'E');
        assert(t[0] == sign);
        if n > 0 {
            law_a_mantissa_is_digits_and_a_point(t.take(n), 0, 0);
            assert(t.take(n)[0] == sign);
        } else {
            assert(t[0] == 'e' || t[0] == 'E');
        }
    }
}

/// A mantissa holds no letter that begins an exponent.
proof fn lemma_no_exponent(m: Seq<char>)
    requires
        is_mantissa(m),
    ensures
        index_of_either(m, 'e', 'E') == m.len(),
        m.take(m.len() as int) == m,
{
    lemma_found_either(m, 'e', 'E');
    let n = index_of_either(m, 'e', 'E');
    if n < m.len() {
        law_a_mantissa_is_digits_and_a_point(m, n, n);
    }
    assert(m.take(m.len() as int) =~= m);
}

/// A number with an exponent is cut at the letter that begins it.
proof fn lemma_cut_at_exponent(m: Seq<char>, x: Seq<char>, e: char)
    requires
        is_mantissa(m),
        e == 'e' || e == 'E',
    ensures
        ({
            let s = m + seq![e] + x;
            &&& index_of_either(s, 'e', 'E') == m.len()
            &&& s.take(m.len() as int) == m
            &&& s.skip(m.len() as int + 1) == x
            &&& s.len() > m.len()
        }),
{
    let s = m + seq![e] + x;
    lemma_found_either(s, 'e', 'E');
    let n = index_of_either(s, 'e', 'E');
    assert(s[m.len() as int] == e);
    if n < m.len() {
        assert(s[n] == m[n]);
        law_a_mantissa_is_digits_and_a_point(m, n, n);
    }
    assert(s.take(m.len() as int) =~= m);
    assert(s.skip(m.len() as int + 1) =~= x);
}

/// The words for what is no finite number are words for a number, with a sign or without one
/// and in capitals or small letters, and so is nothing else that begins with a letter.
pub proof fn law_a_word_for_a_number_is_one_of_three(s: Seq<char>)
    ensures
        ascii_lower(s) == "inf"@ || ascii_lower(s) == "infinity"@ || ascii_lower(s) == "nan"@
            ==> is_number_word(s),
        is_number_word(s) && s.len() > 0 && !is_digit(s[0]) && s[0] != '.' && s[0] != '+' && s[0]
            != '-' ==> ascii_lower(s) == "inf"@ || ascii_lower(s) == "infinity"@ || ascii_lower(s)
            == "nan"@,
        !is_number_word(Seq::empty()),
{
    reveal_strlit("inf");
    reveal_strlit("infinity");
    reveal_strlit("nan");
    if ascii_lower(s) == "inf"@ || ascii_lower(s) == "infinity"@ || ascii_lower(s) == "nan"@ {
        assert(s.len() == ascii_lower(s).len());
        assert(ascii_lower(s)[0] == 'i' || ascii_lower(s)[0] == 'n');
        assert(s[0] != '+' && s[0] != '-');
    }
    if s.len() > 0 && is_plain_number(s) {
        lemma_found_either(s, 'e', 'E');
        let n = index_of_either(s, 'e', 'E');
        if n > 0 {
            law_a_mantissa_is_digits_and_a_point(s.take(n), 0, 0);
        } else {
            lemma_index_of(s.take(n), '.');
        }
    }
    let none = Seq::<char>::empty();
    assert(ascii_lower(none).len() == 0);
    lemma_found_either(none, 'e', 'E');
    assert(none.take(0) =~= none);
    lemma_index_of(none, '.');
}

} // verus!
