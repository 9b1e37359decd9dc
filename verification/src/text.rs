//! Text as sequences of characters: trimming, splitting, searching, and the
//! decimal form of numbers.
//!
//! The executable functions work on slices of characters, because a `str` can
//! only be indexed by byte. [`chars_of`] and [`text_of`] go between the two.

use vstd::prelude::*;
use vstd::slice::slice_subrange;

verus! {

/// `String::push` appends the character at the end and changes nothing else.
pub assume_specification[ String::push ](s: &mut String, c: char)
    ensures
        final(s)@ == old(s)@.push(c),
;

/// The characters of `s`, in order.
pub fn chars_of(s: &str) -> (out: Vec<char>)
    ensures
        out@ == s@,
{
    let mut out: Vec<char> = Vec::new();
    for c in it: s.chars()
        invariant
            it.seq() == s@,
            out@ == s@.take(it.index() as int),
    {
        out.push(c);
    }
    out
}

/// The string that holds exactly the characters of `s`.
pub fn text_of(s: &[char]) -> (out: String)
    ensures
        out@ == s@,
{
    let mut out: String = String::new();
    let mut i: usize = 0;
    while i < s.len()
        invariant
            i <= s.len(),
            out@ == s@.take(i as int),
        decreases s.len() - i,
    {
        out.push(s[i]);
        i += 1;
    }
    out
}

/// A string with the same characters.
pub fn copy_of(s: &str) -> (out: String)
    ensures
        out@ == s@,
{
    text_of(chars_of(s).as_slice())
}

/// `a` with `b` after it.
pub fn joined(a: &str, b: &str) -> (out: String)
    ensures
        out@ == a@ + b@,
{
    let mut all: Vec<char> = chars_of(a);
    append_chars(&mut all, chars_of(b).as_slice());
    text_of(all.as_slice())
}

/// Appends the characters of `more` to `out`.
pub fn append_chars(out: &mut Vec<char>, more: &[char])
    ensures
        final(out)@ == old(out)@ + more@,
{
    let mut i: usize = 0;
    while i < more.len()
        invariant
            i <= more.len(),
            out@ == old(out)@ + more@.take(i as int),
        decreases more.len() - i,
    {
        out.push(more[i]);
        i += 1;
    }
    assert(more@.take(more@.len() as int) == more@);
}

/// Do two runs of characters hold the same text?
pub fn same(a: &[char], b: &[char]) -> (out: bool)
    ensures
        out == (a@ == b@),
{
    if a.len() != b.len() {
        return false;
    }
    let mut i: usize = 0;
    while i < a.len()
        invariant
            i <= a.len(),
            a.len() == b.len(),
            forall|j: int| 0 <= j < i ==> a@[j] == b@[j],
        decreases a.len() - i,
    {
        if a[i] != b[i] {
            return false;
        }
        i += 1;
    }
    assert(a@ =~= b@);
    true
}

/// Do two strings hold the same text?
pub fn same_text(a: &str, b: &str) -> (out: bool)
    ensures
        out == (a@ == b@),
{
    same(chars_of(a).as_slice(), chars_of(b).as_slice())
}

/// Is this run of characters the text of `word`?
pub fn spells(s: &[char], word: &str) -> (out: bool)
    ensures
        out == (s@ == word@),
{
    same(s, chars_of(word).as_slice())
}

// ---- white space -----------------------------------------------------------

/// The characters with the Unicode property `White_Space`.
pub open spec fn is_white(c: char) -> bool {
    let n = c as u32;
    ||| 9 <= n <= 13
    ||| n == 0x20
    ||| n == 0x85
    ||| n == 0xA0
    ||| n == 0x1680
    ||| 0x2000 <= n <= 0x200A
    ||| n == 0x2028
    ||| n == 0x2029
    ||| n == 0x202F
    ||| n == 0x205F
    ||| n == 0x3000
}

/// Is `c` white space?
pub fn white(c: char) -> (out: bool)
    ensures
        out == is_white(c),
{
    let n: u32 = c as u32;
    (9 <= n && n <= 13) || n == 0x20 || n == 0x85 || n == 0xA0 || n == 0x1680 || (0x2000 <= n && n
        <= 0x200A) || n == 0x2028 || n == 0x2029 || n == 0x202F || n == 0x205F || n == 0x3000
}

/// `s` without the white space it begins with.
pub open spec fn trim_start(s: Seq<char>) -> Seq<char>
    decreases s.len(),
{
    if s.len() > 0 && is_white(s[0]) {
        trim_start(s.skip(1))
    } else {
        s
    }
}

/// `s` without the white space it ends with.
pub open spec fn trim_end(s: Seq<char>) -> Seq<char>
    decreases s.len(),
{
    if s.len() > 0 && is_white(s.last()) {
        trim_end(s.drop_last())
    } else {
        s
    }
}

/// `s` without white space at either end.
pub open spec fn trim(s: Seq<char>) -> Seq<char> {
    trim_end(trim_start(s))
}

/// The place at which `s`, trimmed at the front, begins.
pub fn start_of(s: &[char]) -> (lo: usize)
    ensures
        lo <= s@.len(),
        trim_start(s@) == s@.skip(lo as int),
        lo < s@.len() ==> !is_white(s@[lo as int]),
{
    let mut lo: usize = 0;
    assert(s@.skip(0) == s@);
    while lo < s.len() && white(s[lo])
        invariant
            lo <= s.len(),
            trim_start(s@) == trim_start(s@.skip(lo as int)),
        decreases s.len() - lo,
    {
        assert(s@.skip(lo as int).skip(1) == s@.skip(lo + 1));
        lo += 1;
    }
    lo
}

/// Where `s`, without white space at either end, begins and ends.
pub fn trim_bounds(s: &[char]) -> (out: (usize, usize))
    ensures
        out.0 <= out.1 <= s@.len(),
        s@.subrange(out.0 as int, out.1 as int) == trim(s@),
{
    let lo: usize = start_of(s);
    let mut hi: usize = s.len();
    assert(s@.subrange(lo as int, hi as int) == s@.skip(lo as int));
    while lo < hi && white(s[hi - 1])
        invariant
            lo <= hi <= s.len(),
            trim_end(s@.skip(lo as int)) == trim_end(s@.subrange(lo as int, hi as int)),
        decreases hi,
    {
        assert(s@.subrange(lo as int, hi as int).drop_last() == s@.subrange(
            lo as int,
            hi - 1,
        ));
        hi -= 1;
    }
    (lo, hi)
}

/// `s` without white space at either end.
pub fn trimmed(s: &[char]) -> (out: &[char])
    ensures
        out@ == trim(s@),
{
    let (lo, hi): (usize, usize) = trim_bounds(s);
    slice_subrange(s, lo, hi)
}

/// The text of `s` without white space at either end.
pub fn trimmed_text(s: &str) -> (out: String)
    ensures
        out@ == trim(s@),
{
    text_of(trimmed(chars_of(s).as_slice()))
}

// ---- searching -------------------------------------------------------------

/// The first place of `c` in `s`, or the length of `s` where it is not there.
pub open spec fn index_of(s: Seq<char>, c: char) -> int
    decreases s.len(),
{
    if s.len() == 0 {
        0
    } else if s[0] == c {
        0
    } else {
        1 + index_of(s.skip(1), c)
    }
}

/// The first place of `c` in `s`, or the length of `s`.
pub fn find(s: &[char], c: char) -> (out: usize)
    ensures
        out == index_of(s@, c),
        out <= s@.len(),
        forall|j: int| 0 <= j < out ==> s@[j] != c,
        out < s@.len() ==> s@[out as int] == c,
{
    let mut i: usize = 0;
    assert(s@.skip(0) == s@);
    while i < s.len() && s[i] != c
        invariant
            i <= s.len(),
            index_of(s@, c) == i + index_of(s@.skip(i as int), c),
            forall|j: int| 0 <= j < i ==> s@[j] != c,
        decreases s.len() - i,
    {
        assert(s@.skip(i as int).skip(1) == s@.skip(i + 1));
        i += 1;
    }
    i
}

/// What `index_of` gives: no earlier place holds `c`.
pub proof fn lemma_index_of(s: Seq<char>, c: char)
    ensures
        0 <= index_of(s, c) <= s.len(),
        forall|j: int| 0 <= j < index_of(s, c) ==> s[j] != c,
        index_of(s, c) < s.len() ==> s[index_of(s, c)] == c,
        index_of(s, c) < s.len() <==> s.contains(c),
    decreases s.len(),
{
    if s.len() > 0 && s[0] != c {
        lemma_index_of(s.skip(1), c);
        let n = index_of(s.skip(1), c);
        assert forall|j: int| 0 <= j < 1 + n implies s[j] != c by {
            if j > 0 {
                assert(s.skip(1)[j - 1] == s[j]);
            }
        }
        if n < s.len() - 1 {
            assert(s.skip(1)[n] == s[n + 1]);
        }
        if s.contains(c) {
            let j = choose|j: int| 0 <= j < s.len() && s[j] == c;
            assert(s.skip(1)[j - 1] == c);
        }
    }
}

/// Does `s` hold the character `c`?
pub fn holds_char(s: &[char], c: char) -> (out: bool)
    ensures
        out == s@.contains(c),
{
    let at: usize = find(s, c);
    proof {
        lemma_index_of(s@, c);
    }
    at < s.len()
}

/// Does `s` begin with `p`?
pub open spec fn has_prefix(s: Seq<char>, p: Seq<char>) -> bool {
    p.len() <= s.len() && s.take(p.len() as int) == p
}

/// Does `s` begin with `p`?
pub fn begins_with(s: &[char], p: &[char]) -> (out: bool)
    ensures
        out == has_prefix(s@, p@),
{
    if p.len() > s.len() {
        return false;
    }
    let head: &[char] = slice_subrange(s, 0, p.len());
    assert(head@ == s@.take(p@.len() as int));
    same(head, p)
}

/// Does `needle` occur in `hay` at place `i`?
pub open spec fn occurs_at(hay: Seq<char>, needle: Seq<char>, i: int) -> bool {
    0 <= i && i + needle.len() <= hay.len() && hay.subrange(i, i + needle.len()) == needle
}

/// Does `needle` occur anywhere in `hay`?
pub open spec fn occurs(hay: Seq<char>, needle: Seq<char>) -> bool {
    exists|i: int| occurs_at(hay, needle, i)
}

/// Does `needle` occur anywhere in `hay`?
pub fn contains_text(hay: &[char], needle: &[char]) -> (out: bool)
    ensures
        out == occurs(hay@, needle@),
{
    if needle.len() > hay.len() {
        return false;
    }
    let last: usize = hay.len() - needle.len();
    let mut i: usize = 0;
    while i < last
        invariant
            i <= last,
            last == hay.len() - needle.len(),
            forall|j: int| 0 <= j < i ==> !occurs_at(hay@, needle@, j),
        decreases last - i,
    {
        if same(slice_subrange(hay, i, i + needle.len()), needle) {
            assert(occurs_at(hay@, needle@, i as int));
            return true;
        }
        i += 1;
    }
    let tail: &[char] = slice_subrange(hay, last, hay.len());
    let found: bool = same(tail, needle);
    assert(found == occurs_at(hay@, needle@, last as int));
    found
}

/// How many times `c` stands in `s`.
pub open spec fn count_of(s: Seq<char>, c: char) -> nat
    decreases s.len(),
{
    if s.len() == 0 {
        0
    } else {
        count_of(s.drop_last(), c) + if s.last() == c {
            1nat
        } else {
            0nat
        }
    }
}

/// How many times `c` stands in `s`.
pub fn count(s: &[char], c: char) -> (out: usize)
    ensures
        out == count_of(s@, c),
        out <= s@.len(),
{
    let mut n: usize = 0;
    let mut i: usize = 0;
    while i < s.len()
        invariant
            i <= s.len(),
            n <= i,
            n == count_of(s@.take(i as int), c),
        decreases s.len() - i,
    {
        assert(s@.take(i + 1).drop_last() == s@.take(i as int));
        if s[i] == c {
            n += 1;
        }
        i += 1;
    }
    assert(s@.take(s@.len() as int) == s@);
    n
}

// ---- splitting and joining -------------------------------------------------

/// The first place of `a` or `b` in `s`, or the length of `s`.
pub open spec fn index_of_either(s: Seq<char>, a: char, b: char) -> int
    decreases s.len(),
{
    if s.len() == 0 {
        0
    } else if s[0] == a || s[0] == b {
        0
    } else {
        1 + index_of_either(s.skip(1), a, b)
    }
}

/// `index_of_either` is a place in `s`, or its length.
pub proof fn lemma_index_of_either(s: Seq<char>, a: char, b: char)
    ensures
        0 <= index_of_either(s, a, b) <= s.len(),
    decreases s.len(),
{
    if s.len() > 0 {
        lemma_index_of_either(s.skip(1), a, b);
    }
}

/// The pieces of `s` between the separators `a` and `b`. There is always one
/// piece more than there are separators.
pub open spec fn split_either(s: Seq<char>, a: char, b: char) -> Seq<Seq<char>>
    decreases s.len(),
{
    proof {
        lemma_index_of_either(s, a, b);
    }
    let n = index_of_either(s, a, b);
    if n >= s.len() {
        seq![s]
    } else {
        seq![s.take(n)] + split_either(s.skip(n + 1), a, b)
    }
}

/// The first place of `a` or `b` in `s`, or the length of `s`.
pub fn find_either(s: &[char], a: char, b: char) -> (out: usize)
    ensures
        out == index_of_either(s@, a, b),
        out <= s@.len(),
{
    let mut i: usize = 0;
    assert(s@.skip(0) == s@);
    while i < s.len() && s[i] != a && s[i] != b
        invariant
            i <= s.len(),
            index_of_either(s@, a, b) == i + index_of_either(s@.skip(i as int), a, b),
        decreases s.len() - i,
    {
        assert(s@.skip(i as int).skip(1) == s@.skip(i + 1));
        i += 1;
    }
    i
}

/// The first place at which `sep` occurs in `s`, from place `i` on; the length
/// of `s` where it does not occur.
pub open spec fn index_of_text(s: Seq<char>, sep: Seq<char>, i: int) -> int
    decreases s.len() - i,
{
    if i < 0 || i >= s.len() {
        s.len() as int
    } else if occurs_at(s, sep, i) {
        i
    } else {
        index_of_text(s, sep, i + 1)
    }
}

/// `index_of_text` is no earlier than where the search began.
pub proof fn lemma_index_of_text(s: Seq<char>, sep: Seq<char>, i: int)
    requires
        0 <= i <= s.len(),
    ensures
        i <= index_of_text(s, sep, i) <= s.len(),
        index_of_text(s, sep, i) < s.len() ==> occurs_at(s, sep, index_of_text(s, sep, i)),
    decreases s.len() - i,
{
    if i < s.len() && !occurs_at(s, sep, i) {
        lemma_index_of_text(s, sep, i + 1);
    }
}

/// The pieces of `s` between the occurrences of `sep`.
pub open spec fn split_text(s: Seq<char>, sep: Seq<char>) -> Seq<Seq<char>>
    decreases s.len(),
{
    proof {
        lemma_index_of_text(s, sep, 0);
    }
    let n = index_of_text(s, sep, 0);
    if sep.len() == 0 || n >= s.len() {
        seq![s]
    } else {
        seq![s.take(n)] + split_text(s.skip(n + sep.len()), sep)
    }
}

/// The first place at which `sep` occurs in `s`, or the length of `s`.
pub fn find_text(s: &[char], sep: &[char]) -> (out: usize)
    ensures
        out == index_of_text(s@, sep@, 0),
        out <= s@.len(),
        out < s@.len() ==> occurs_at(s@, sep@, out as int),
{
    let mut i: usize = 0;
    while i < s.len()
        invariant
            i <= s.len(),
            index_of_text(s@, sep@, 0) == index_of_text(s@, sep@, i as int),
        decreases s.len() - i,
    {
        if sep.len() <= s.len() - i {
            if same(slice_subrange(s, i, i + sep.len()), sep) {
                return i;
            }
        }
        i += 1;
    }
    i
}

/// The first place of white space in `s`, or the length of `s`.
pub open spec fn index_of_white(s: Seq<char>) -> int
    decreases s.len(),
{
    if s.len() == 0 {
        0
    } else if is_white(s[0]) {
        0
    } else {
        1 + index_of_white(s.skip(1))
    }
}

/// `index_of_white` is a place in `s`, or its length.
pub proof fn lemma_index_of_white(s: Seq<char>)
    ensures
        0 <= index_of_white(s) <= s.len(),
        s.len() > 0 && !is_white(s[0]) ==> index_of_white(s) > 0,
    decreases s.len(),
{
    if s.len() > 0 {
        lemma_index_of_white(s.skip(1));
    }
}

/// The first place of white space in `s`, or the length of `s`.
pub fn find_white(s: &[char]) -> (out: usize)
    ensures
        out == index_of_white(s@),
        out <= s@.len(),
{
    let mut i: usize = 0;
    assert(s@.skip(0) == s@);
    while i < s.len() && !white(s[i])
        invariant
            i <= s.len(),
            index_of_white(s@) == i + index_of_white(s@.skip(i as int)),
        decreases s.len() - i,
    {
        assert(s@.skip(i as int).skip(1) == s@.skip(i + 1));
        i += 1;
    }
    i
}

/// Trimming the front never makes text longer.
pub proof fn lemma_trim_start(s: Seq<char>)
    ensures
        trim_start(s).len() <= s.len(),
        trim_start(s).len() > 0 ==> !is_white(trim_start(s)[0]),
    decreases s.len(),
{
    if s.len() > 0 && is_white(s[0]) {
        lemma_trim_start(s.skip(1));
    }
}

/// The runs of `s` that hold no white space, in order.
pub open spec fn words(s: Seq<char>) -> Seq<Seq<char>>
    decreases s.len(),
{
    proof {
        lemma_trim_start(s);
        lemma_index_of_white(trim_start(s));
    }
    let t = trim_start(s);
    if t.len() == 0 {
        seq![]
    } else {
        seq![t.take(index_of_white(t))] + words(t.skip(index_of_white(t)))
    }
}

/// The texts that the strings of `v` hold.
pub open spec fn texts(v: Seq<String>) -> Seq<Seq<char>> {
    v.map_values(|s: String| s@)
}

/// The words of `s`.
pub fn words_of(s: &[char]) -> (out: Vec<String>)
    ensures
        texts(out@) == words(s@),
{
    let mut out: Vec<String> = Vec::new();
    let mut rest: &[char] = s;
    loop
        invariant
            texts(out@) + words(rest@) == words(s@),
        ensures
            texts(out@) == words(s@),
        decreases rest@.len(),
    {
        let lo: usize = start_of(rest);
        let t: &[char] = slice_subrange(rest, lo, rest.len());
        assert(t@ == trim_start(rest@));
        if t.len() == 0 {
            assert(texts(out@) + words(rest@) == texts(out@));
            break;
        }
        let n: usize = find_white(t);
        proof {
            lemma_index_of_white(t@);
        }
        let ghost before = out@;
        out.push(text_of(slice_subrange(t, 0, n)));
        let next: &[char] = slice_subrange(t, n, t.len());
        assert(next@ == t@.skip(n as int));
        assert(texts(out@) == texts(before).push(t@.take(n as int)));
        assert(texts(out@) + words(next@) == texts(before) + words(rest@));
        rest = next;
    }
    out
}

/// `parts` with `sep` between each two of them.
pub open spec fn join(parts: Seq<Seq<char>>, sep: Seq<char>) -> Seq<char>
    decreases parts.len(),
{
    if parts.len() == 0 {
        seq![]
    } else if parts.len() == 1 {
        parts[0]
    } else {
        join(parts.drop_last(), sep) + sep + parts.last()
    }
}

/// `parts` with a blank between each two of them.
pub fn join_with_blank(parts: &Vec<String>) -> (out: String)
    ensures
        out@ == join(texts(parts@), seq![' ']),
{
    let mut out: Vec<char> = Vec::new();
    let mut i: usize = 0;
    while i < parts.len()
        invariant
            i <= parts.len(),
            out@ == join(texts(parts@).take(i as int), seq![' ']),
        decreases parts.len() - i,
    {
        assert(texts(parts@).take(i + 1).drop_last() == texts(parts@).take(i as int));
        if i > 0 {
            out.push(' ');
        }
        append_chars(&mut out, chars_of(parts[i].as_str()).as_slice());
        i += 1;
    }
    assert(texts(parts@).take(i as int) == texts(parts@));
    text_of(out.as_slice())
}

/// `s` with every `from` turned into `to`.
pub open spec fn replaced(s: Seq<char>, from: char, to: char) -> Seq<char> {
    s.map_values(
        |c: char|
            if c == from {
                to
            } else {
                c
            },
    )
}

/// `s` with every `from` turned into `to`.
pub fn replace_char(s: &[char], from: char, to: char) -> (out: String)
    ensures
        out@ == replaced(s@, from, to),
{
    let mut out: String = String::new();
    let mut i: usize = 0;
    while i < s.len()
        invariant
            i <= s.len(),
            out@ == replaced(s@, from, to).take(i as int),
        decreases s.len() - i,
    {
        if s[i] == from {
            out.push(to);
        } else {
            out.push(s[i]);
        }
        i += 1;
    }
    out
}

/// The small form of an ASCII capital; every other character as it is.
pub open spec fn ascii_small(c: char) -> char {
    if 'A' <= c <= 'Z' {
        (c as u32 + 32) as char
    } else {
        c
    }
}

/// `s` with its ASCII capitals made small.
pub open spec fn ascii_lower(s: Seq<char>) -> Seq<char> {
    s.map_values(|c: char| ascii_small(c))
}

/// White space at either end goes, whatever the case of the letters.
pub proof fn lemma_trim_is_blind_to_case(s: Seq<char>)
    ensures
        trim(ascii_lower(s)) == ascii_lower(trim(s)),
{
    lemma_trim_start_lower(s);
    lemma_trim_end_lower(trim_start(s));
}

proof fn lemma_trim_start_lower(s: Seq<char>)
    ensures
        trim_start(ascii_lower(s)) == ascii_lower(trim_start(s)),
    decreases s.len(),
{
    if s.len() > 0 {
        assert(is_white(ascii_small(s[0])) == is_white(s[0]));
        if is_white(s[0]) {
            lemma_trim_start_lower(s.skip(1));
            assert(ascii_lower(s).skip(1) =~= ascii_lower(s.skip(1)));
        }
    }
}

proof fn lemma_trim_end_lower(s: Seq<char>)
    ensures
        trim_end(ascii_lower(s)) == ascii_lower(trim_end(s)),
    decreases s.len(),
{
    if s.len() > 0 {
        assert(is_white(ascii_small(s.last())) == is_white(s.last()));
        if is_white(s.last()) {
            lemma_trim_end_lower(s.drop_last());
            assert(ascii_lower(s).drop_last() =~= ascii_lower(s.drop_last()));
        }
    }
}

/// `s` with its ASCII capitals made small.
pub fn lowered(s: &[char]) -> (out: Vec<char>)
    ensures
        out@ == ascii_lower(s@),
{
    let mut out: Vec<char> = Vec::new();
    let mut i: usize = 0;
    while i < s.len()
        invariant
            i <= s.len(),
            out@ == ascii_lower(s@).take(i as int),
        decreases s.len() - i,
    {
        let c: char = s[i];
        if 'A' <= c && c <= 'Z' {
            out.push((c as u8 + 32) as char);
        } else {
            out.push(c);
        }
        i += 1;
    }
    out
}

// ---- numbers ---------------------------------------------------------------

/// The character of a decimal digit.
pub open spec fn digit(d: nat) -> char {
    (48 + d) as char
}

/// Is `c` a decimal digit?
pub open spec fn is_digit(c: char) -> bool {
    '0' <= c <= '9'
}

/// The decimal form of `n`.
pub open spec fn decimal(n: nat) -> Seq<char>
    decreases n,
{
    if n < 10 {
        seq![digit(n)]
    } else {
        decimal(n / 10).push(digit(n % 10))
    }
}

/// The decimal form of `n`.
pub fn decimal_of(n: u64) -> (out: Vec<char>)
    ensures
        out@ == decimal(n as nat),
    decreases n,
{
    let mut out: Vec<char> = if n < 10 {
        Vec::new()
    } else {
        decimal_of(n / 10)
    };
    out.push((48 + (n % 10) as u8) as char);
    out
}

/// The decimal form of `n`, as a string.
pub fn decimal_text(n: u64) -> (out: String)
    ensures
        out@ == decimal(n as nat),
{
    text_of(decimal_of(n).as_slice())
}

/// Is every character of `s` a decimal digit?
pub open spec fn all_digits(s: Seq<char>) -> bool {
    forall|i: int| 0 <= i < s.len() ==> is_digit(#[trigger] s[i])
}

/// The number that a run of digits writes.
pub open spec fn digits_value(s: Seq<char>) -> nat
    decreases s.len(),
{
    if s.len() == 0 {
        0
    } else {
        digits_value(s.drop_last()) * 10 + (s.last() as nat - 48) as nat
    }
}

/// What is left of `s` once one leading `+` is taken off.
pub open spec fn unsigned_part(s: Seq<char>) -> Seq<char> {
    if s.len() > 0 && s[0] == '+' {
        s.skip(1)
    } else {
        s
    }
}

/// The number that `s` writes, where it writes one that is at most `max`: one
/// `+` or none, then digits and nothing else, at least one of them.
pub open spec fn number_in(s: Seq<char>, max: nat) -> Option<nat> {
    let t = unsigned_part(s);
    if t.len() > 0 && all_digits(t) && digits_value(t) <= max {
        Some(digits_value(t))
    } else {
        None
    }
}

/// The number that `s` writes, where it writes one that is at most `max`.
pub fn parse_number(s: &[char], max: u64) -> (out: Option<u64>)
    ensures
        match out {
            Some(n) => number_in(s@, max as nat) == Some(n as nat),
            None => number_in(s@, max as nat) is None,
        },
{
    let t: &[char] = if s.len() > 0 && s[0] == '+' {
        slice_subrange(s, 1, s.len())
    } else {
        s
    };
    assert(t@ == unsigned_part(s@));
    if t.len() == 0 {
        return None;
    }
    let mut n: u64 = 0;
    let mut over: bool = false;
    let mut i: usize = 0;
    while i < t.len()
        invariant
            i <= t.len(),
            t@ == unsigned_part(s@),
            forall|j: int| 0 <= j < i ==> is_digit(#[trigger] t@[j]),
            !over ==> n == digits_value(t@.take(i as int)) && n <= max,
            over ==> digits_value(t@.take(i as int)) > max,
        decreases t.len() - i,
    {
        let c: char = t[i];
        if !('0' <= c && c <= '9') {
            assert(!is_digit(t@[i as int]));
            return None;
        }
        let d: u64 = (c as u32 - 48) as u64;
        proof {
            assert(t@.take(i + 1).drop_last() == t@.take(i as int));
            assert(digits_value(t@.take(i + 1)) == digits_value(t@.take(i as int)) * 10 + d);
        }
        if !over {
            let wide: u128 = n as u128 * 10 + d as u128;
            if wide > max as u128 {
                over = true;
            } else {
                n = wide as u64;
            }
        }
        i += 1;
    }
    assert(t@.take(i as int) == t@);
    if over {
        None
    } else {
        Some(n)
    }
}

// ---- order -----------------------------------------------------------------

/// Does `a` come before `b` in the order of their characters?
pub open spec fn text_before(a: Seq<char>, b: Seq<char>) -> bool
    decreases b.len(),
{
    if b.len() == 0 {
        false
    } else if a.len() == 0 {
        true
    } else {
        a[0] < b[0] || (a[0] == b[0] && text_before(a.skip(1), b.skip(1)))
    }
}

/// Does `a` come before `b` in the order of their characters?
pub fn before(a: &[char], b: &[char]) -> (out: bool)
    ensures
        out == text_before(a@, b@),
{
    let mut i: usize = 0;
    assert(a@.skip(0) == a@ && b@.skip(0) == b@);
    while i < a.len() && i < b.len() && a[i] == b[i]
        invariant
            i <= a.len(),
            i <= b.len(),
            text_before(a@, b@) == text_before(a@.skip(i as int), b@.skip(i as int)),
        decreases a.len() - i,
    {
        assert(a@.skip(i as int).skip(1) == a@.skip(i + 1));
        assert(b@.skip(i as int).skip(1) == b@.skip(i + 1));
        i += 1;
    }
    if i >= b.len() {
        false
    } else if i >= a.len() {
        true
    } else {
        a[i] < b[i]
    }
}

// ---- small letters in every script ----------------------------------------

/// A text in small letters, by the rules of every script.
pub uninterp spec fn small_letters(s: Seq<char>) -> Seq<char>;

/// `str::to_lowercase` of the standard library: the text in small letters, by the
/// rules of Unicode. It is a function of the text alone.
#[verifier::external_body]
pub(crate) fn to_small_letters(s: &str) -> (out: String)
    ensures
        out@ == small_letters(s@),
{
    s.to_lowercase()
}

/// A text without any number of `p` in front of it.
pub open spec fn without_front(s: Seq<char>, p: Seq<char>) -> Seq<char>
    decreases s.len(),
{
    if p.len() > 0 && has_prefix(s, p) {
        without_front(s.skip(p.len() as int), p)
    } else {
        s
    }
}

/// A text without any number of `p` in front of it.
pub fn strip_front(s: &str, p: &str) -> (out: String)
    ensures
        out@ == without_front(s@, p@),
{
    let text: Vec<char> = chars_of(s);
    let front: Vec<char> = chars_of(p);
    let n: usize = front.len();
    let mut at: usize = 0;
    assert(text@.skip(0) =~= text@);
    while n > 0 && begins_with(
        vstd::slice::slice_subrange(text.as_slice(), at, text.len()),
        front.as_slice(),
    )
        invariant
            at <= text@.len(),
            n == front@.len(),
            without_front(text@, front@) == without_front(text@.skip(at as int), front@),
        decreases text@.len() - at,
    {
        assert(text@.subrange(at as int, text@.len() as int) =~= text@.skip(at as int));
        assert(text@.skip(at as int).skip(n as int) =~= text@.skip(at + n));
        at += n;
    }
    assert(text@.subrange(at as int, text@.len() as int) =~= text@.skip(at as int));
    text_of(vstd::slice::slice_subrange(text.as_slice(), at, text.len()))
}

// ---- numbers in sixteens ---------------------------------------------------

/// The small letter or the digit that writes `d`, which is below sixteen.
pub open spec fn hex_digit(d: nat) -> char {
    if d < 10 {
        (48 + d) as char
    } else {
        (87 + d) as char
    }
}

/// The last `width` digits of `n`, written in sixteens.
pub open spec fn hex_form(n: nat, width: nat) -> Seq<char>
    decreases width,
{
    if width == 0 {
        seq![]
    } else {
        hex_form(n / 16, (width - 1) as nat).push(hex_digit(n % 16))
    }
}

/// The last `width` digits of `n`, written in sixteens.
pub fn hex_of(n: u64, width: usize) -> (out: Vec<char>)
    ensures
        out@ == hex_form(n as nat, width as nat),
    decreases width,
{
    if width == 0 {
        let out: Vec<char> = Vec::new();
        assert(out@ =~= hex_form(n as nat, 0));
        return out;
    }
    let mut out: Vec<char> = hex_of(n / 16, width - 1);
    let d: u8 = (n % 16) as u8;
    out.push(
        if d < 10 {
            (48 + d) as char
        } else {
            (87 + d) as char
        },
    );
    out
}

/// How many numbers can be written with `width` digits in sixteens.
pub open spec fn sixteens(width: nat) -> nat
    decreases width,
{
    if width == 0 {
        1
    } else {
        16 * sixteens((width - 1) as nat)
    }
}

/// No two numbers are written alike, where all their digits are.
pub proof fn lemma_hex_is_one_to_one(n: nat, m: nat, width: nat)
    requires
        n < sixteens(width),
        m < sixteens(width),
        hex_form(n, width) == hex_form(m, width),
    ensures
        n == m,
    decreases width,
{
    if width > 0 {
        let w = (width - 1) as nat;
        let a = hex_form(n / 16, w);
        let b = hex_form(m / 16, w);
        assert(a.push(hex_digit(n % 16)).last() == b.push(hex_digit(m % 16)).last());
        assert(a.push(hex_digit(n % 16)).drop_last() =~= a);
        assert(b.push(hex_digit(m % 16)).drop_last() =~= b);
        lemma_hex_is_one_to_one(n / 16, m / 16, w);
    }
}

/// Sixteen digits write every number of sixty-four bits.
pub proof fn lemma_sixteen_digits_suffice()
    ensures
        sixteens(16) == u64::MAX + 1,
{
    reveal_with_fuel(sixteens, 17);
}

// ---- laws ------------------------------------------------------------------

/// What is seen of ASCII is no white space; blanks, tabs and line breaks are.
pub proof fn law_what_is_seen_is_not_white(c: char)
    ensures
        '!' <= c <= '~' ==> !is_white(c),
        c == ' ' || c == '\t' || c == '\n' || c == '\r' ==> is_white(c),
{
}

/// What is cut off at the front is white space, and what is left does not begin with any.
proof fn lemma_front_is_white(s: Seq<char>) -> (lo: int)
    ensures
        0 <= lo <= s.len(),
        trim_start(s) == s.skip(lo),
        forall|i: int| 0 <= i < lo ==> is_white(#[trigger] s[i]),
        lo < s.len() ==> !is_white(s[lo]),
    decreases s.len(),
{
    if s.len() > 0 && is_white(s[0]) {
        let rest = s.skip(1);
        let k = lemma_front_is_white(rest);
        assert(rest.skip(k) =~= s.skip(k + 1));
        assert forall|i: int| 0 <= i < k + 1 implies is_white(#[trigger] s[i]) by {
            if i > 0 {
                assert(rest[i - 1] == s[i]);
            }
        }
        if k < rest.len() {
            assert(rest[k] == s[k + 1]);
        }
        k + 1
    } else {
        assert(s.skip(0) =~= s);
        0
    }
}

/// What is cut off at the end is white space, and what is left does not end with any.
proof fn lemma_end_is_white(s: Seq<char>) -> (hi: int)
    ensures
        0 <= hi <= s.len(),
        trim_end(s) == s.take(hi),
        forall|i: int| hi <= i < s.len() ==> is_white(#[trigger] s[i]),
        hi > 0 ==> !is_white(s[hi - 1]),
    decreases s.len(),
{
    if s.len() > 0 && is_white(s.last()) {
        let front = s.drop_last();
        let k = lemma_end_is_white(front);
        assert(front.take(k) =~= s.take(k));
        assert forall|i: int| k <= i < s.len() implies is_white(#[trigger] s[i]) by {
            if i < front.len() {
                assert(front[i] == s[i]);
            }
        }
        k
    } else {
        assert(s.take(s.len() as int) =~= s);
        s.len() as int
    }
}

/// Trimming cuts a text at two places: all that is cut off is white space, and what is left
/// neither begins nor ends with any. So trimming twice changes nothing.
pub proof fn law_only_white_is_trimmed(s: Seq<char>) -> (cut: (int, int))
    ensures
        0 <= cut.0 <= cut.1 <= s.len(),
        trim(s) == s.subrange(cut.0, cut.1),
        forall|i: int| 0 <= i < cut.0 ==> is_white(#[trigger] s[i]),
        forall|i: int| cut.1 <= i < s.len() ==> is_white(#[trigger] s[i]),
        trim(s).len() > 0 ==> !is_white(trim(s)[0]) && !is_white(trim(s).last()),
        trim(trim(s)) == trim(s),
{
    let lo = lemma_front_is_white(s);
    let t = trim_start(s);
    let k = lemma_end_is_white(t);
    let hi = lo + k;
    assert(t.take(k) =~= s.subrange(lo, hi));
    assert forall|i: int| hi <= i < s.len() implies is_white(#[trigger] s[i]) by {
        assert(t[i - lo] == s[i]);
    }
    let r = trim(s);
    if r.len() > 0 {
        assert(r[0] == s[lo]);
        assert(r.last() == t[k - 1]);
    }
    let a = lemma_front_is_white(r);
    assert(a == 0) by {
        if a > 0 {
            assert(is_white(r[0]));
        }
    }
    assert(r.skip(0) =~= r);
    let b = lemma_end_is_white(r);
    assert(b == r.len()) by {
        if b < r.len() {
            assert(is_white(r[r.len() - 1]));
        }
    }
    assert(r.take(r.len() as int) =~= r);
    (lo, hi)
}

/// The first white space has none before it.
proof fn lemma_first_white(s: Seq<char>)
    ensures
        0 <= index_of_white(s) <= s.len(),
        forall|i: int| 0 <= i < index_of_white(s) ==> !is_white(#[trigger] s[i]),
        index_of_white(s) < s.len() ==> is_white(s[index_of_white(s)]),
    decreases s.len(),
{
    if s.len() > 0 && !is_white(s[0]) {
        let rest = s.skip(1);
        lemma_first_white(rest);
        assert forall|i: int| 0 <= i < index_of_white(s) implies !is_white(#[trigger] s[i]) by {
            if i > 0 {
                assert(rest[i - 1] == s[i]);
            }
        }
        if index_of_white(rest) < rest.len() {
            assert(rest[index_of_white(rest)] == s[index_of_white(rest) + 1]);
        }
    }
}

/// A word is never blank and holds no white space.
pub proof fn law_words_are_not_white(s: Seq<char>)
    ensures
        forall|k: int|
            0 <= k < words(s).len() ==> (#[trigger] words(s)[k]).len() > 0 && forall|i: int|
                0 <= i < words(s)[k].len() ==> !is_white(#[trigger] words(s)[k][i]),
    decreases s.len(),
{
    lemma_trim_start(s);
    let t = trim_start(s);
    if t.len() > 0 {
        lemma_index_of_white(t);
        lemma_first_white(t);
        let n = index_of_white(t);
        let rest = t.skip(n);
        law_words_are_not_white(rest);
        assert forall|k: int| 0 <= k < words(s).len() implies (#[trigger] words(s)[k]).len() > 0
            && forall|i: int|
            0 <= i < words(s)[k].len() ==> !is_white(#[trigger] words(s)[k][i]) by {
            if k == 0 {
                assert(words(s)[0] == t.take(n));
            } else {
                assert(words(s)[k] == words(rest)[k - 1]);
            }
        }
    }
}

/// No character is lost between words: put together, they are the text without its white
/// space.
pub proof fn law_words_hold_everything(s: Seq<char>)
    ensures
        words(s).flatten() == s.filter(|c: char| !is_white(c)),
    decreases s.len(),
{
    let seen = |c: char| !is_white(c);
    lemma_trim_start(s);
    let lo = lemma_front_is_white(s);
    let t = trim_start(s);
    assert(s =~= s.take(lo) + t);
    Seq::filter_distributes_over_add(s.take(lo), t, seen);
    lemma_all_dropped(s.take(lo), seen);
    if t.len() == 0 {
        assert(t.filter(seen) =~= seq![]) by {
            reveal(Seq::filter);
        }
        assert(words(s) =~= seq![]);
        assert(s.filter(seen) =~= seq![]);
    } else {
        lemma_index_of_white(t);
        lemma_first_white(t);
        let n = index_of_white(t);
        let rest = t.skip(n);
        law_words_hold_everything(rest);
        assert(t =~= t.take(n) + rest);
        Seq::filter_distributes_over_add(t.take(n), rest, seen);
        lemma_all_kept(t.take(n), seen);
        let ws = words(s);
        assert(ws.first() == t.take(n));
        assert(ws.drop_first() =~= words(rest));
        assert(ws.flatten() == ws.first() + ws.drop_first().flatten());
        assert(s.filter(seen) =~= t.filter(seen));
    }
}

/// A filter that keeps everything changes nothing.
pub proof fn lemma_all_kept(s: Seq<char>, keep: spec_fn(char) -> bool)
    requires
        forall|i: int| 0 <= i < s.len() ==> keep(#[trigger] s[i]),
    ensures
        s.filter(keep) == s,
    decreases s.len(),
{
    reveal(Seq::filter);
    if s.len() > 0 {
        lemma_all_kept(s.drop_last(), keep);
        assert(keep(s[s.len() - 1]));
        assert(s.drop_last().push(s.last()) =~= s);
    }
}

/// A filter that keeps nothing leaves nothing.
pub proof fn lemma_all_dropped(s: Seq<char>, keep: spec_fn(char) -> bool)
    requires
        forall|i: int| 0 <= i < s.len() ==> !keep(#[trigger] s[i]),
    ensures
        s.filter(keep) == Seq::<char>::empty(),
    decreases s.len(),
{
    reveal(Seq::filter);
    if s.len() > 0 {
        lemma_all_dropped(s.drop_last(), keep);
        assert(!keep(s[s.len() - 1]));
    }
}

/// Parts are joined from the front as from the end.
pub proof fn law_joining_begins_with_the_first(
    first: Seq<char>,
    rest: Seq<Seq<char>>,
    sep: Seq<char>,
)
    ensures
        join(seq![first] + rest, sep) == if rest.len() == 0 {
            first
        } else {
            first + sep + join(rest, sep)
        },
    decreases rest.len(),
{
    let all = seq![first] + rest;
    if rest.len() == 0 {
        assert(all[0] == first);
    } else if rest.len() == 1 {
        assert(all.drop_last() =~= seq![first]);
        assert(join(seq![first], sep) == first);
        assert(all.last() == rest[0]);
        assert(join(all, sep) == join(all.drop_last(), sep) + sep + all.last());
    } else {
        law_joining_begins_with_the_first(first, rest.drop_last(), sep);
        assert(all.drop_last() =~= seq![first] + rest.drop_last());
        assert(all.last() == rest.last());
        assert(join(rest, sep) == join(rest.drop_last(), sep) + sep + rest.last());
        assert(join(all, sep) =~= first + sep + join(rest, sep));
    }
}

/// What is split can be put together again: the pieces with the separator between them are
/// the text.
pub proof fn law_splitting_loses_nothing(s: Seq<char>, sep: Seq<char>)
    ensures
        join(split_text(s, sep), sep) == s,
        split_text(s, sep).len() > 0,
    decreases s.len(),
{
    lemma_index_of_text(s, sep, 0);
    let n = index_of_text(s, sep, 0);
    if sep.len() == 0 || n >= s.len() {
        assert(split_text(s, sep)[0] == s);
    } else {
        let rest = s.skip(n + sep.len());
        law_splitting_loses_nothing(rest, sep);
        law_joining_begins_with_the_first(s.take(n), split_text(rest, sep), sep);
        assert(occurs_at(s, sep, n));
        assert(s.take(n) + sep + rest =~= s) by {
            assert forall|i: int| n <= i < n + sep.len() implies s[i] == sep[i - n] by {
                assert(s.subrange(n, n + sep.len())[i - n] == s[i]);
            }
        }
    }
}

/// Text is found where it occurs first.
proof fn lemma_found_first(s: Seq<char>, sep: Seq<char>, i: int)
    requires
        0 <= i <= s.len(),
    ensures
        forall|j: int| i <= j < index_of_text(s, sep, i) ==> !occurs_at(s, sep, j),
    decreases s.len() - i,
{
    if i < s.len() && !occurs_at(s, sep, i) {
        lemma_found_first(s, sep, i + 1);
    }
}

/// No piece between separators holds the separator.
pub proof fn law_no_piece_holds_the_separator(s: Seq<char>, sep: Seq<char>, k: int)
    requires
        sep.len() > 0,
        0 <= k < split_text(s, sep).len(),
    ensures
        !occurs(split_text(s, sep)[k], sep),
    decreases s.len(),
{
    lemma_index_of_text(s, sep, 0);
    lemma_found_first(s, sep, 0);
    let n = index_of_text(s, sep, 0);
    let piece = split_text(s, sep)[k];
    if n < s.len() && k > 0 {
        law_no_piece_holds_the_separator(s.skip(n + sep.len()), sep, k - 1);
    } else if occurs(piece, sep) {
        let j = choose|j: int| occurs_at(piece, sep, j);
        assert(piece == s.take(n)) by {
            assert(s.take(s.len() as int) =~= s);
        }
        assert(s.subrange(j, j + sep.len()) =~= piece.subrange(j, j + sep.len()));
        assert(occurs_at(s, sep, j));
    }
}

/// Either separator is found where one of the two stands first.
pub proof fn lemma_found_either(s: Seq<char>, a: char, b: char)
    ensures
        0 <= index_of_either(s, a, b) <= s.len(),
        forall|i: int| 0 <= i < index_of_either(s, a, b) ==> #[trigger] s[i] != a && s[i] != b,
        index_of_either(s, a, b) < s.len() ==> s[index_of_either(s, a, b)] == a || s[index_of_either(
            s,
            a,
            b,
        )] == b,
    decreases s.len(),
{
    if s.len() > 0 && s[0] != a && s[0] != b {
        let rest = s.skip(1);
        lemma_found_either(rest, a, b);
        assert forall|i: int| 0 <= i < index_of_either(s, a, b) implies #[trigger] s[i] != a && s[i]
            != b by {
            if i > 0 {
                assert(rest[i - 1] == s[i]);
            }
        }
        let n = index_of_either(rest, a, b);
        if n < rest.len() {
            assert(rest[n] == s[n + 1]);
        }
    }
}

/// No piece between two kinds of separators holds either, and no other character is lost.
pub proof fn law_pieces_hold_no_separator(s: Seq<char>, a: char, b: char)
    ensures
        forall|k: int|
            0 <= k < split_either(s, a, b).len() ==> !(#[trigger] split_either(s, a, b)[k]).contains(
                a,
            ) && !split_either(s, a, b)[k].contains(b),
        split_either(s, a, b).flatten() == s.filter(|c: char| c != a && c != b),
    decreases s.len(),
{
    let keep = |c: char| c != a && c != b;
    lemma_found_either(s, a, b);
    let n = index_of_either(s, a, b);
    let pieces = split_either(s, a, b);
    if n >= s.len() {
        lemma_all_kept(s, keep);
        assert(pieces.first() == s);
        assert(pieces.drop_first() =~= seq![]);
        assert(pieces.drop_first().flatten() =~= seq![]);
        assert(pieces.flatten() =~= s);
    } else {
        let rest = s.skip(n + 1);
        law_pieces_hold_no_separator(rest, a, b);
        assert forall|k: int| 0 <= k < pieces.len() implies !(#[trigger] pieces[k]).contains(a)
            && !pieces[k].contains(b) by {
            if k == 0 {
                assert(pieces[0] == s.take(n));
            } else {
                assert(pieces[k] == split_either(rest, a, b)[k - 1]);
            }
        }
        assert(s =~= s.take(n) + (seq![s[n]] + rest));
        Seq::filter_distributes_over_add(s.take(n), seq![s[n]] + rest, keep);
        Seq::filter_distributes_over_add(seq![s[n]], rest, keep);
        lemma_all_kept(s.take(n), keep);
        lemma_all_dropped(seq![s[n]], keep);
        assert(pieces.first() == s.take(n));
        assert(pieces.drop_first() =~= split_either(rest, a, b));
        assert(pieces.flatten() == pieces.first() + pieces.drop_first().flatten());
        assert(s.filter(keep) =~= s.take(n) + rest.filter(keep));
    }
}

/// Turning one character into another changes that character everywhere and nothing else.
pub proof fn law_one_character_is_replaced(s: Seq<char>, from: char, to: char)
    ensures
        replaced(s, from, to).len() == s.len(),
        forall|i: int|
            0 <= i < s.len() ==> #[trigger] replaced(s, from, to)[i] == (if s[i] == from {
                to
            } else {
                s[i]
            }),
        from != to ==> !replaced(s, from, to).contains(from),
{
}

/// Small letters stay, each capital has its own small letter, and nothing else changes.
pub proof fn law_capitals_become_small(c: char, d: char)
    ensures
        ascii_small(c) != c <==> 'A' <= c <= 'Z',
        'A' <= c <= 'Z' ==> 'a' <= ascii_small(c) <= 'z' && ascii_small(c) as int - 'a' as int == c
            as int - 'A' as int,
        ascii_small(ascii_small(c)) == ascii_small(c),
        ascii_small(c) == ascii_small(d) && c != d ==> 'A' <= c <= 'Z' || 'A' <= d <= 'Z',
{
}

/// What is written in decimals can be read back, and it is written without zeros in front.
pub proof fn law_a_number_can_be_read_back(n: nat)
    ensures
        decimal(n).len() > 0,
        all_digits(decimal(n)),
        digits_value(decimal(n)) == n,
        decimal(n).len() > 1 ==> decimal(n)[0] != '0',
    decreases n,
{
    if n < 10 {
        assert(decimal(n).drop_last() =~= seq![]);
        assert(digits_value(decimal(n).drop_last()) == 0);
    } else {
        let front = decimal(n / 10);
        law_a_number_can_be_read_back(n / 10);
        assert(decimal(n).drop_last() =~= front);
        assert(decimal(n)[0] == front[0]);
        if front.len() == 1 {
            assert(0 < n / 10 < 10) by {
                if n / 10 >= 10 {
                    law_a_number_can_be_read_back(n / 10 / 10);
                    assert(front.len() == decimal(n / 10 / 10).len() + 1);
                }
            }
            assert(front[0] == digit(n / 10));
        }
        assert forall|i: int| 0 <= i < decimal(n).len() implies is_digit(
            #[trigger] decimal(n)[i],
        ) by {
            if i < front.len() {
                assert(decimal(n)[i] == front[i]);
            }
        }
    }
}

/// Every number up to the bound is read, with or without a plus in front of it, and none
/// above it.
pub proof fn law_numbers_are_read_up_to_the_bound(n: nat, max: nat)
    ensures
        n <= max ==> number_in(decimal(n), max) == Some(n),
        n <= max ==> number_in(seq!['+'] + decimal(n), max) == Some(n),
        n > max ==> number_in(decimal(n), max) is None,
{
    law_a_number_can_be_read_back(n);
    let signed = seq!['+'] + decimal(n);
    assert(signed.skip(1) =~= decimal(n));
    assert(is_digit(decimal(n)[0]));
}

/// No text comes before itself.
proof fn lemma_never_before_itself(a: Seq<char>)
    ensures
        !text_before(a, a),
    decreases a.len(),
{
    if a.len() > 0 {
        lemma_never_before_itself(a.skip(1));
    }
}

/// The order of texts is strict and total.
pub proof fn law_texts_are_in_order(a: Seq<char>, b: Seq<char>)
    ensures
        !text_before(a, a),
        !(text_before(a, b) && text_before(b, a)),
        a != b ==> text_before(a, b) || text_before(b, a),
    decreases a.len() + b.len(),
{
    lemma_never_before_itself(a);
    if a.len() > 0 && b.len() > 0 {
        law_texts_are_in_order(a.skip(1), b.skip(1));
        if a[0] == b[0] && a.skip(1) == b.skip(1) {
            assert(a =~= seq![a[0]] + a.skip(1));
            assert(b =~= seq![b[0]] + b.skip(1));
        }
    } else if a.len() == 0 && b.len() == 0 {
        assert(a =~= b);
    }
}

/// A text comes before every longer one that it begins, and texts that begin alike are
/// ordered by what follows.
pub proof fn law_order_goes_by_the_first_difference(p: Seq<char>, a: Seq<char>, b: Seq<char>)
    ensures
        text_before(p + a, p + b) == text_before(a, b),
        b.len() > 0 ==> text_before(p, p + b),
        a.len() > 0 && b.len() > 0 && a[0] < b[0] ==> text_before(p + a, p + b),
    decreases p.len(),
{
    if p.len() == 0 {
        assert(p + a =~= a);
        assert(p + b =~= b);
        assert(p =~= Seq::<char>::empty());
    } else {
        let q = p.skip(1);
        law_order_goes_by_the_first_difference(q, a, b);
        assert((p + a).skip(1) =~= q + a);
        assert((p + b).skip(1) =~= q + b);
        assert((p + a)[0] == p[0]);
        assert((p + b)[0] == p[0]);
    }
}

/// What is taken off the front is taken off as often as it is there, and nothing else is.
pub proof fn law_nothing_is_left_in_front(s: Seq<char>, p: Seq<char>)
    requires
        p.len() > 0,
    ensures
        !has_prefix(without_front(s, p), p),
        without_front(p + s, p) == without_front(s, p),
        !has_prefix(s, p) ==> without_front(s, p) == s,
    decreases s.len(),
{
    assert((p + s).take(p.len() as int) =~= p);
    assert((p + s).skip(p.len() as int) =~= s);
    if has_prefix(s, p) {
        law_nothing_is_left_in_front(s.skip(p.len() as int), p);
    }
}

/// A digit of sixteen is written by a decimal digit below ten, and by one of the first six
/// small letters from there on, in order.
pub proof fn law_sixteen_digits_are_in_order(d: nat)
    requires
        d < 16,
    ensures
        d < 10 ==> hex_digit(d) == digit(d),
        d >= 10 ==> 'a' <= hex_digit(d) <= 'f' && hex_digit(d) as int - 'a' as int == d - 10,
{
}

/// As many stand in two texts as in each of them.
pub proof fn law_counts_add_up(a: Seq<char>, b: Seq<char>, c: char)
    ensures
        count_of(a + b, c) == count_of(a, c) + count_of(b, c),
        count_of(seq![c], c) == 1,
        forall|d: char| d != c ==> #[trigger] count_of(seq![d], c) == 0,
    decreases b.len(),
{
    assert forall|d: char| #[trigger] count_of(seq![d], c) == if d == c {
        1nat
    } else {
        0nat
    } by {
        assert(seq![d].drop_last() =~= seq![]);
        assert(count_of(seq![d].drop_last(), c) == 0);
    }
    assert(count_of(seq![c], c) == 1);
    if b.len() == 0 {
        assert(a + b =~= a);
    } else {
        law_counts_add_up(a, b.drop_last(), c);
        assert((a + b).drop_last() =~= a + b.drop_last());
        assert((a + b).last() == b.last());
    }
}

/// Digits need no trimming.
pub proof fn law_digits_need_no_trimming(s: Seq<char>)
    requires
        all_digits(s),
    ensures
        trim(s) == s,
        forall|i: int| 0 <= i < s.len() ==> !is_white(#[trigger] s[i]),
{
    assert forall|i: int| 0 <= i < s.len() implies !is_white(#[trigger] s[i]) by {
        assert(is_digit(s[i]));
    }
    let cut = law_only_white_is_trimmed(s);
    if s.len() > 0 {
        assert(cut.0 == 0) by {
            if cut.0 > 0 {
                assert(is_white(s[0]));
            }
        }
        assert(cut.1 == s.len()) by {
            if cut.1 < s.len() {
                assert(is_white(s[s.len() - 1]));
            }
        }
    }
    assert(trim(s) =~= s);
}

} // verus!
