//! What a script's source tells the Inspector about its own tunables.
//!
//! A script declares its params in a `defaults` table. The comments around the
//! entries say how each is to be drawn: an annotation begins with `--@`, and a
//! plain comment above an entry is its tooltip. Reading is line by line and
//! forgiving: an annotation that is not known is passed over.

use crate::lists::lemma_filter_holds;
use crate::number_words::{is_number_word, number_word};
use crate::paths::{join_path, path_below};
use crate::table::Table;
use crate::text::{
    append_chars, begins_with, chars_of, count, count_of, find, find_either, find_text, find_white,
    has_prefix, holds_char, index_of, index_of_text, index_of_white, is_white, join,
    join_with_blank, joined, law_only_white_is_trimmed, law_pieces_hold_no_separator,
    law_what_is_seen_is_not_white, lemma_index_of, lemma_trim_start, occurs, occurs_at, replace_char,
    replaced, same_text, spells, split_either, split_text, text_of, texts, trim, trim_bounds,
    trim_end, trim_start, trimmed, words, words_of,
};
use vstd::prelude::*;
use vstd::slice::slice_subrange;

verus! {

/// How the Inspector draws one entry of a script's `defaults` table.
///
/// The numbers of `range` and `step` are kept as the script writes them.
#[derive(Debug, PartialEq)]
pub struct ParamMeta {
    pub name: String,
    /// Section header above this row.
    pub header: Option<String>,
    /// Tooltip.
    pub desc: Option<String>,
    /// The bounds of the value.
    pub range: Option<(String, String)>,
    /// Draw a slider.
    pub slider: bool,
    /// Drag speed, or the granularity of the slider.
    pub step: Option<String>,
    /// The entries of a dropdown. None means no dropdown.
    pub options: Vec<String>,
    /// A checkbox.
    pub boolean: bool,
    /// A colour picker.
    pub color: bool,
    /// A text box of several lines.
    pub multiline: bool,
    /// What stands after the number.
    pub units: Option<String>,
    /// A tunable that is not shown.
    pub hidden: bool,
    /// The value that the script declares, as it is written.
    pub default: Option<String>,
}

/// What a [`ParamMeta`] says, as text.
#[verifier::ext_equal]
pub struct ParamModel {
    pub name: Seq<char>,
    pub header: Option<Seq<char>>,
    pub desc: Option<Seq<char>>,
    pub range: Option<(Seq<char>, Seq<char>)>,
    pub slider: bool,
    pub step: Option<Seq<char>>,
    pub options: Seq<Seq<char>>,
    pub boolean: bool,
    pub color: bool,
    pub multiline: bool,
    pub units: Option<Seq<char>>,
    pub hidden: bool,
    pub default: Option<Seq<char>>,
}

/// The text of an optional string.
pub open spec fn opt_text(s: Option<String>) -> Option<Seq<char>> {
    match s {
        Some(t) => Some(t@),
        None => None,
    }
}

impl View for ParamMeta {
    type V = ParamModel;

    open spec fn view(&self) -> ParamModel {
        ParamModel {
            name: self.name@,
            header: opt_text(self.header),
            desc: opt_text(self.desc),
            range: match self.range {
                Some((a, b)) => Some((a@, b@)),
                None => None,
            },
            slider: self.slider,
            step: opt_text(self.step),
            options: texts(self.options@),
            boolean: self.boolean,
            color: self.color,
            multiline: self.multiline,
            units: opt_text(self.units),
            hidden: self.hidden,
            default: opt_text(self.default),
        }
    }
}

/// A param of which nothing has been said.
pub open spec fn blank_param() -> ParamModel {
    ParamModel {
        name: seq![],
        header: None,
        desc: None,
        range: None,
        slider: false,
        step: None,
        options: seq![],
        boolean: false,
        color: false,
        multiline: false,
        units: None,
        hidden: false,
        default: None,
    }
}

impl Default for ParamMeta {
    fn default() -> (out: Self)
        ensures
            out@ == blank_param(),
    {
        ParamMeta {
            name: String::new(),
            header: None,
            desc: None,
            range: None,
            slider: false,
            step: None,
            options: Vec::new(),
            boolean: false,
            color: false,
            multiline: false,
            units: None,
            hidden: false,
            default: None,
        }
    }
}

/// Everything that the Inspector reads out of a script's source.
#[derive(Debug, PartialEq)]
pub struct ScriptMeta {
    /// The entries of `defaults`, in the order in which they are declared.
    pub params: Vec<ParamMeta>,
    /// The actions of `--@editorButton`: a label, and the function it calls.
    pub buttons: Vec<(String, String)>,
    /// What the script does.
    pub about: Option<String>,
}

/// What a [`ScriptMeta`] says, as text.
#[verifier::ext_equal]
pub struct MetaModel {
    pub params: Seq<ParamModel>,
    pub buttons: Seq<(Seq<char>, Seq<char>)>,
    pub about: Option<Seq<char>>,
}

/// What the params of `v` say.
pub open spec fn param_models(v: Seq<ParamMeta>) -> Seq<ParamModel> {
    v.map_values(|p: ParamMeta| p@)
}

/// The texts of pairs of strings.
pub open spec fn pair_texts(v: Seq<(String, String)>) -> Seq<(Seq<char>, Seq<char>)> {
    v.map_values(|p: (String, String)| (p.0@, p.1@))
}

impl View for ScriptMeta {
    type V = MetaModel;

    open spec fn view(&self) -> MetaModel {
        MetaModel {
            params: param_models(self.params@),
            buttons: pair_texts(self.buttons@),
            about: opt_text(self.about),
        }
    }
}

impl Default for ScriptMeta {
    fn default() -> (out: Self)
        ensures
            out@ == (MetaModel { params: seq![], buttons: seq![], about: None }),
    {
        let out: ScriptMeta = ScriptMeta { params: Vec::new(), buttons: Vec::new(), about: None };
        assert(out@ =~= (MetaModel { params: seq![], buttons: seq![], about: None }));
        out
    }
}

impl ScriptMeta {
    /// The first param of that name.
    pub fn param(&self, name: &str) -> (out: Option<&ParamMeta>)
        ensures
            match out {
                Some(p) => exists|i: int|
                    #![trigger self.params@[i]]
                    0 <= i < self.params@.len() && *p == self.params@[i] && p.name@ == name@ && (
                    forall|j: int| 0 <= j < i ==> (#[trigger] self.params@[j]).name@ != name@),
                None => forall|j: int|
                    0 <= j < self.params@.len() ==> (#[trigger] self.params@[j]).name@ != name@,
            },
    {
        let mut i: usize = 0;
        while i < self.params.len()
            invariant
                i <= self.params.len(),
                forall|j: int| 0 <= j < i ==> (#[trigger] self.params@[j]).name@ != name@,
            decreases self.params.len() - i,
        {
            if same_text(self.params[i].name.as_str(), name) {
                return Some(&self.params[i]);
            }
            i += 1;
        }
        None
    }
}

// ---- one line --------------------------------------------------------------

/// The place at which the comment of a line begins, read on from place `i` with
/// `quote` open: the first `--` that stands outside a string. The length of the
/// line where there is none. Inside a string a backslash hides what follows it.
pub open spec fn comment_at(s: Seq<char>, i: int, quote: Option<char>) -> int
    decreases s.len() + 1 - i,
{
    if i < 0 || i >= s.len() {
        s.len() as int
    } else {
        match quote {
            Some(q) => if s[i] == '\\' {
                comment_at(s, i + 2, quote)
            } else if s[i] == q {
                comment_at(s, i + 1, None)
            } else {
                comment_at(s, i + 1, quote)
            },
            None => if s[i] == '"' || s[i] == '\'' {
                comment_at(s, i + 1, Some(s[i]))
            } else if s[i] == '-' && i + 1 < s.len() && s[i + 1] == '-' {
                i
            } else {
                comment_at(s, i + 1, None)
            },
        }
    }
}

/// The code of a line: what stands before its comment.
pub open spec fn code_part(line: Seq<char>) -> Seq<char> {
    line.take(comment_at(line, 0, None))
}

/// The comment of a line, trimmed, where it has one.
pub open spec fn comment_part(line: Seq<char>) -> Option<Seq<char>> {
    let k = comment_at(line, 0, None);
    if k < line.len() {
        Some(trim(line.skip(k + 2)))
    } else {
        None
    }
}

/// The place at which the comment of a line begins, or the length of the line.
fn find_comment(s: &[char]) -> (out: usize)
    ensures
        out == comment_at(s@, 0, None),
        out <= s@.len(),
        out < s@.len() ==> out + 1 < s@.len(),
{
    let mut quote: Option<char> = None;
    let mut i: usize = 0;
    while i < s.len()
        invariant
            i <= s.len(),
            comment_at(s@, 0, None) == comment_at(s@, i as int, quote),
        decreases s.len() - i,
    {
        let c: char = s[i];
        match quote {
            Some(q) => {
                if c == '\\' {
                    if s.len() - i <= 2 {
                        assert(comment_at(s@, i + 2, quote) == s@.len());
                        return s.len();
                    }
                    i += 2;
                    continue;
                }
                if c == q {
                    quote = None;
                }
            },
            None => {
                if c == '"' || c == '\'' {
                    quote = Some(c);
                } else if c == '-' && i + 1 < s.len() && s[i + 1] == '-' {
                    return i;
                }
            },
        }
        i += 1;
    }
    i
}

/// Splits a line into its code and its comment. A `--` inside a string is no
/// comment.
pub fn split_comment(line: &str) -> (out: (&str, Option<&str>))
    ensures
        out.0@ == code_part(line@),
        match out.1 {
            Some(c) => comment_part(line@) == Some(c@),
            None => comment_part(line@) is None,
        },
{
    let s: Vec<char> = chars_of(line);
    let k: usize = find_comment(s.as_slice());
    let code: &str = line.substring_char(0, k);
    assert(line@.subrange(0, k as int) == line@.take(k as int));
    if k < s.len() {
        let rest: &[char] = slice_subrange(s.as_slice(), k + 2, s.len());
        assert(rest@ == s@.skip(k + 2));
        let (lo, hi): (usize, usize) = trim_bounds(rest);
        assert(rest@.subrange(lo as int, hi as int) == line@.subrange(k + 2 + lo, k + 2 + hi));
        (code, Some(line.substring_char(k + 2 + lo, k + 2 + hi)))
    } else {
        (code, None)
    }
}

/// `s` without the commas it ends with.
pub open spec fn without_commas(s: Seq<char>) -> Seq<char>
    decreases s.len(),
{
    if s.len() > 0 && s.last() == ',' {
        without_commas(s.drop_last())
    } else {
        s
    }
}

/// What stands after the first `=` of `code`, without the commas at its end and
/// without white space around it. `None` where there is no `=`.
pub open spec fn value_part(code: Seq<char>) -> Option<Seq<char>> {
    let n = index_of(code, '=');
    if n < code.len() {
        Some(trim(without_commas(trim(code.skip(n + 1)))))
    } else {
        None
    }
}

/// What stands after the first `=` of `code`, tidied.
fn value_of(code: &[char]) -> (out: Option<&[char]>)
    ensures
        match out {
            Some(v) => value_part(code@) == Some(v@),
            None => value_part(code@) is None,
        },
{
    let n: usize = find(code, '=');
    if n >= code.len() {
        return None;
    }
    let after: &[char] = slice_subrange(code, n + 1, code.len());
    assert(after@ == code@.skip(n + 1));
    let v: &[char] = trimmed(after);
    let mut hi: usize = v.len();
    assert(v@.take(hi as int) == v@);
    while hi > 0 && v[hi - 1] == ','
        invariant
            hi <= v.len(),
            without_commas(v@) == without_commas(v@.take(hi as int)),
        decreases hi,
    {
        assert(v@.take(hi as int).drop_last() == v@.take(hi - 1));
        hi -= 1;
    }
    let bare: &[char] = slice_subrange(v, 0, hi);
    assert(bare@ == v@.take(hi as int));
    Some(trimmed(bare))
}

/// The literal that a `key = value` line declares, as it is written. A table or
/// a call is no literal.
pub open spec fn literal_part(code: Seq<char>) -> Option<Seq<char>> {
    match value_part(code) {
        Some(v) => if v.len() == 0 || v[0] == '{' || v.contains('(') {
            None
        } else {
            Some(v)
        },
        None => None,
    }
}

/// The literal that a `key = value` line declares.
fn literal_in(code: &[char]) -> (out: Option<String>)
    ensures
        opt_text(out) == literal_part(code@),
{
    match value_of(code) {
        Some(v) => {
            if v.len() == 0 || v[0] == '{' || holds_char(v, '(') {
                None
            } else {
                Some(text_of(v))
            }
        },
        None => None,
    }
}

/// The literal that a `key = value` line declares, as it is written.
pub fn literal_of(code: &str) -> (out: Option<String>)
    ensures
        opt_text(out) == literal_part(code@),
{
    literal_in(chars_of(code).as_slice())
}

/// Does the `key = value` line assign a boolean literal?
pub open spec fn assigns_bool(code: Seq<char>) -> bool {
    value_part(code) == Some("true"@) || value_part(code) == Some("false"@)
}

/// Does the `key = value` line assign a boolean literal?
fn bool_in(code: &[char]) -> (out: bool)
    ensures
        out == assigns_bool(code@),
{
    match value_of(code) {
        Some(v) => spells(v, "true") || spells(v, "false"),
        None => false,
    }
}

/// Does the `key = value` line assign a boolean literal?
pub fn is_bool_literal(code: &str) -> (out: bool)
    ensures
        out == assigns_bool(code@),
{
    bool_in(chars_of(code).as_slice())
}

/// A letter of ASCII, or an underscore.
pub open spec fn is_name_start(c: char) -> bool {
    'a' <= c <= 'z' || 'A' <= c <= 'Z' || c == '_'
}

/// What a name may hold after its first character.
pub open spec fn is_name_char(c: char) -> bool {
    is_name_start(c) || '0' <= c <= '9'
}

/// Is `s` a name: a letter or an underscore, then letters, digits and
/// underscores?
pub open spec fn is_name(s: Seq<char>) -> bool {
    s.len() > 0 && is_name_start(s[0]) && forall|i: int|
        0 <= i < s.len() ==> is_name_char(#[trigger] s[i])
}

/// Does a second `=` follow the one at `n`, so that the two compare and do not
/// assign?
pub open spec fn compares_at(code: Seq<char>, n: int) -> bool {
    n + 1 < code.len() && code[n + 1] == '='
}

/// The name to which a line assigns, where it is a plain `name = value`. A
/// comparison is no assignment.
pub open spec fn key_part(code: Seq<char>) -> Option<Seq<char>> {
    let n = index_of(code, '=');
    if n < code.len() && !compares_at(code, n) && is_name(trim(code.take(n))) {
        Some(trim(code.take(n)))
    } else {
        None
    }
}

/// Is `c` a letter of ASCII, or an underscore?
fn name_start(c: char) -> (out: bool)
    ensures
        out == is_name_start(c),
{
    ('a' <= c && c <= 'z') || ('A' <= c && c <= 'Z') || c == '_'
}

/// The name to which a line assigns.
fn key_in(code: &[char]) -> (out: Option<String>)
    ensures
        opt_text(out) == key_part(code@),
{
    let n: usize = find(code, '=');
    if n >= code.len() {
        return None;
    }
    if code.len() - n > 1 && code[n + 1] == '=' {
        return None;
    }
    let head: &[char] = slice_subrange(code, 0, n);
    assert(head@ == code@.take(n as int));
    let name: &[char] = trimmed(head);
    if name.len() == 0 || !name_start(name[0]) {
        return None;
    }
    let mut i: usize = 0;
    while i < name.len()
        invariant
            i <= name.len(),
            n == index_of(code@, '='),
            n < code@.len(),
            !compares_at(code@, n as int),
            name@ == trim(code@.take(n as int)),
            forall|j: int| 0 <= j < i ==> is_name_char(#[trigger] name@[j]),
        decreases name.len() - i,
    {
        let c: char = name[i];
        if !(name_start(c) || ('0' <= c && c <= '9')) {
            assert(!is_name_char(name@[i as int]));
            return None;
        }
        i += 1;
    }
    Some(text_of(name))
}

/// The name to which a line assigns, where it is a plain `name = value`.
pub fn key_of(code: &str) -> (out: Option<String>)
    ensures
        opt_text(out) == key_part(code@),
{
    key_in(chars_of(code).as_slice())
}

// ---- one annotation --------------------------------------------------------

/// The words of `s` that write a number.
fn numbers_of(s: &[char]) -> (out: Vec<String>)
    ensures
        texts(out@) == numbers_in(s@),
{
    let all: Vec<String> = words_of(s);
    let mut out: Vec<String> = Vec::new();
    let ghost keep = |w: Seq<char>| is_number_word(w);
    let mut i: usize = 0;
    proof {
        reveal(Seq::filter);
    }
    while i < all.len()
        invariant
            i <= all.len(),
            keep == (|w: Seq<char>| is_number_word(w)),
            texts(out@) == texts(all@).take(i as int).filter(keep),
        decreases all.len() - i,
    {
        proof {
            reveal(Seq::filter);
            assert(texts(all@).take(i + 1).drop_last() == texts(all@).take(i as int));
        }
        let ghost was = out@;
        let word: Vec<char> = chars_of(all[i].as_str());
        if number_word(word.as_slice()) {
            out.push(text_of(word.as_slice()));
            assert(texts(out@) =~= texts(was).push(word@));
        }
        i += 1;
    }
    assert(texts(all@).take(i as int) == texts(all@));
    out
}

/// The entries of a dropdown.
fn entries_of(s: &[char]) -> (out: Vec<String>)
    ensures
        texts(out@) == entries_in(s@),
{
    let mut out: Vec<String> = Vec::new();
    let mut rest: &[char] = s;
    loop
        invariant_except_break
            texts(out@) + tidy(split_either(rest@, '|', ',')) == entries_in(s@),
        ensures
            texts(out@) == entries_in(s@),
        decreases rest@.len(),
    {
        let n: usize = find_either(rest, '|', ',');
        let piece: &[char] = slice_subrange(rest, 0, n);
        assert(piece@ == rest@.take(n as int));
        let word: &[char] = trimmed(piece);
        let ghost was = out@;
        if word.len() > 0 {
            out.push(text_of(word));
            assert(texts(out@) =~= texts(was).push(word@));
        }
        proof {
            lemma_tidy_one(piece@);
        }
        assert(texts(out@) =~= texts(was) + tidy(seq![piece@]));
        if n >= rest.len() {
            assert(piece@ == rest@);
            break;
        }
        let next: &[char] = slice_subrange(rest, n + 1, rest.len());
        assert(next@ == rest@.skip(n + 1));
        proof {
            lemma_tidy_add(seq![piece@], split_either(next@, '|', ','));
        }
        assert(texts(was) + tidy(split_either(rest@, '|', ',')) =~= texts(out@) + tidy(
            split_either(next@, '|', ','),
        ));
        rest = next;
    }
    out
}

/// What is left of one piece.
proof fn lemma_tidy_one(p: Seq<char>)
    ensures
        tidy(seq![p]) == if trim(p).len() > 0 {
            seq![trim(p)]
        } else {
            seq![]
        },
{
    reveal_with_fuel(Seq::filter, 2);
    let m = seq![p].map_values(|q: Seq<char>| trim(q));
    assert(m =~= seq![trim(p)]);
    assert(m.drop_last() =~= seq![]);
}

/// Pieces can be tidied in two parts.
proof fn lemma_tidy_add(a: Seq<Seq<char>>, b: Seq<Seq<char>>)
    ensures
        tidy(a + b) == tidy(a) + tidy(b),
{
    let f = |q: Seq<char>| trim(q);
    assert((a + b).map_values(f) =~= a.map_values(f) + b.map_values(f));
    Seq::filter_distributes_over_add(
        a.map_values(f),
        b.map_values(f),
        |q: Seq<char>| q.len() > 0,
    );
}

/// Reads what the annotation with `tag` and `arg` says of the next param.
fn annotate_param(pending: &mut ParamMeta, tag: &[char], arg: &[char])
    ensures
        final(pending)@ == annotated(old(pending)@, tag@, arg@),
{
    if spells(tag, "header") {
        pending.header = Some(replace_char(arg, '_', ' '));
    } else if spells(tag, "desc") || spells(tag, "description") || spells(tag, "tooltip") {
        let text: String = match &pending.desc {
            Some(before) => {
                let mut joined: Vec<char> = chars_of(before.as_str());
                joined.push(' ');
                append_chars(&mut joined, arg);
                assert(joined@ =~= before@ + seq![' '] + arg@);
                text_of(joined.as_slice())
            },
            None => text_of(arg),
        };
        pending.desc = Some(text);
    } else if spells(tag, "range") || spells(tag, "slider") {
        let n: Vec<String> = numbers_of(arg);
        if n.len() >= 2 {
            assert(texts(n@)[0] == n@[0]@ && texts(n@)[1] == n@[1]@);
            pending.range = Some((n[0].clone(), n[1].clone()));
        }
        if spells(tag, "slider") {
            pending.slider = true;
        }
    } else if spells(tag, "step") {
        let n: Vec<String> = numbers_of(arg);
        if n.len() >= 1 {
            assert(texts(n@)[0] == n@[0]@);
            pending.step = Some(n[0].clone());
        } else {
            pending.step = None;
        }
    } else if spells(tag, "options") || spells(tag, "enum") {
        pending.options = entries_of(arg);
    } else if spells(tag, "bool") || spells(tag, "toggle") {
        pending.boolean = true;
    } else if spells(tag, "color") || spells(tag, "colour") {
        pending.color = true;
    } else if spells(tag, "multiline") || spells(tag, "text") {
        pending.multiline = true;
    } else if spells(tag, "units") || spells(tag, "unit") || spells(tag, "suffix") {
        pending.units = Some(text_of(arg));
    } else if spells(tag, "hidden") || spells(tag, "hide") {
        pending.hidden = true;
    }
}

/// Reads one annotation, its text trimmed: what it says of the next param goes
/// to `pending`, a button to `meta`, and what it says of the script to `about`.
fn apply_annotation(
    text: &[char],
    pending: &mut ParamMeta,
    meta: &mut ScriptMeta,
    about: &mut Vec<String>,
)
    ensures
        final(pending)@ == annotated(old(pending)@, tag_of(text@), arg_of(text@)),
        final(meta).params == old(meta).params,
        final(meta).about == old(meta).about,
        pair_texts(final(meta).buttons@) == with_button(
            pair_texts(old(meta).buttons@),
            tag_of(text@),
            arg_of(text@),
        ),
        texts(final(about)@) == if tag_of(text@) == "about"@ {
            texts(old(about)@).push(arg_of(text@))
        } else {
            texts(old(about)@)
        },
{
    let n: usize = find_white(text);
    let tag: &[char] = slice_subrange(text, 0, n);
    assert(tag@ == tag_of(text@));
    let after: &[char] = if n < text.len() {
        slice_subrange(text, n + 1, text.len())
    } else {
        slice_subrange(text, n, n)
    };
    let arg: &[char] = trimmed(after);
    proof {
        if n < text@.len() {
            assert(after@ == text@.skip(n + 1));
        } else {
            assert(after@ =~= seq![]);
        }
        assert(arg@ == arg_of(text@));
    }
    annotate_param(pending, tag, arg);
    if spells(tag, "about") {
        let ghost was = about@;
        about.push(text_of(arg));
        assert(texts(about@) =~= texts(was).push(arg@));
    }
    if spells(tag, "editorButton") {
        let parts: Vec<String> = words_of(arg);
        if parts.len() > 0 {
            assert(texts(parts@)[0] == parts@[0]@);
            let label: Vec<char> = chars_of(parts[0].as_str());
            let func: String = if parts.len() > 1 {
                assert(texts(parts@)[1] == parts@[1]@);
                parts[1].clone()
            } else {
                parts[0].clone()
            };
            let ghost was = meta.buttons@;
            meta.buttons.push((replace_char(label.as_slice(), '_', ' '), func));
            assert(pair_texts(meta.buttons@) =~= pair_texts(was).push(
                (replaced(words(arg@)[0], '_', ' '), button_target(words(arg@))),
            ));
        }
    }
}

/// Is `t` a tag that says something of the next param?
pub open spec fn is_param_tag(t: Seq<char>) -> bool {
    ||| t == "header"@
    ||| t == "desc"@
    ||| t == "description"@
    ||| t == "tooltip"@
    ||| t == "range"@
    ||| t == "slider"@
    ||| t == "step"@
    ||| t == "options"@
    ||| t == "enum"@
    ||| t == "bool"@
    ||| t == "toggle"@
    ||| t == "color"@
    ||| t == "colour"@
    ||| t == "multiline"@
    ||| t == "text"@
    ||| t == "units"@
    ||| t == "unit"@
    ||| t == "suffix"@
    ||| t == "hidden"@
    ||| t == "hide"@
}

// ---- reading a whole source ------------------------------------------------

/// How far the reading of a source has come.
#[verifier::ext_equal]
pub struct Reading {
    /// The params declared so far.
    pub params: Seq<ParamModel>,
    /// The buttons declared so far.
    pub buttons: Seq<(Seq<char>, Seq<char>)>,
    /// The pieces of the script's own description.
    pub about: Seq<Seq<char>>,
    /// What the annotations since the last param say of the next one.
    pub pending: ParamModel,
    /// The plain comments since the last line of code.
    pub notes: Seq<Seq<char>>,
    /// How many braces are open, counted from that of the table.
    pub depth: nat,
    /// Is the reading inside the `defaults` table?
    pub inside: bool,
}

/// Nothing has been read.
pub open spec fn nothing_read() -> Reading {
    Reading {
        params: seq![],
        buttons: seq![],
        about: seq![],
        pending: blank_param(),
        notes: seq![],
        depth: 0,
        inside: false,
    }
}

/// The name of an annotation: its text up to the first white space.
pub open spec fn tag_of(text: Seq<char>) -> Seq<char> {
    text.take(index_of_white(text))
}

/// What an annotation says: its text after the tag, trimmed.
pub open spec fn arg_of(text: Seq<char>) -> Seq<char> {
    let n = index_of_white(text);
    if n < text.len() {
        trim(text.skip(n + 1))
    } else {
        seq![]
    }
}

/// The words of `s` that write a number.
pub open spec fn numbers_in(s: Seq<char>) -> Seq<Seq<char>> {
    words(s).filter(|w: Seq<char>| is_number_word(w))
}

/// The entries of a dropdown: the pieces between bars and commas that are not
/// blank, trimmed.
pub open spec fn entries_in(s: Seq<char>) -> Seq<Seq<char>> {
    tidy(split_either(s, '|', ','))
}

/// The pieces that are not blank, trimmed.
pub open spec fn tidy(pieces: Seq<Seq<char>>) -> Seq<Seq<char>> {
    pieces.map_values(|p: Seq<char>| trim(p)).filter(|p: Seq<char>| p.len() > 0)
}

/// What a param is to be once one more annotation has been read.
pub open spec fn annotated(p: ParamModel, tag: Seq<char>, arg: Seq<char>) -> ParamModel {
    if tag == "header"@ {
        ParamModel { header: Some(replaced(arg, '_', ' ')), ..p }
    } else if tag == "desc"@ || tag == "description"@ || tag == "tooltip"@ {
        ParamModel {
            desc: Some(
                match p.desc {
                    Some(before) => before + seq![' '] + arg,
                    None => arg,
                },
            ),
            ..p
        }
    } else if tag == "range"@ || tag == "slider"@ {
        ParamModel {
            range: if numbers_in(arg).len() >= 2 {
                Some((numbers_in(arg)[0], numbers_in(arg)[1]))
            } else {
                p.range
            },
            slider: p.slider || tag == "slider"@,
            ..p
        }
    } else if tag == "step"@ {
        ParamModel {
            step: if numbers_in(arg).len() >= 1 {
                Some(numbers_in(arg)[0])
            } else {
                None
            },
            ..p
        }
    } else if tag == "options"@ || tag == "enum"@ {
        ParamModel { options: entries_in(arg), ..p }
    } else if tag == "bool"@ || tag == "toggle"@ {
        ParamModel { boolean: true, ..p }
    } else if tag == "color"@ || tag == "colour"@ {
        ParamModel { color: true, ..p }
    } else if tag == "multiline"@ || tag == "text"@ {
        ParamModel { multiline: true, ..p }
    } else if tag == "units"@ || tag == "unit"@ || tag == "suffix"@ {
        ParamModel { units: Some(arg), ..p }
    } else if tag == "hidden"@ || tag == "hide"@ {
        ParamModel { hidden: true, ..p }
    } else {
        p
    }
}

/// The buttons once one more annotation has been read.
pub open spec fn with_button(
    buttons: Seq<(Seq<char>, Seq<char>)>,
    tag: Seq<char>,
    arg: Seq<char>,
) -> Seq<(Seq<char>, Seq<char>)> {
    if tag == "editorButton"@ && words(arg).len() > 0 {
        buttons.push((replaced(words(arg)[0], '_', ' '), button_target(words(arg))))
    } else {
        buttons
    }
}

/// The function that a button calls: its second word, or else its first.
pub open spec fn button_target(ws: Seq<Seq<char>>) -> Seq<char> {
    if ws.len() > 1 {
        ws[1]
    } else {
        ws[0]
    }
}

/// The reading once the annotation `text` has been read. An annotation with a
/// tag that is not known changes nothing.
pub open spec fn annotate(st: Reading, text: Seq<char>) -> Reading {
    let tag = tag_of(text);
    let arg = arg_of(text);
    Reading {
        pending: annotated(st.pending, tag, arg),
        buttons: with_button(st.buttons, tag, arg),
        about: if tag == "about"@ {
            st.about.push(arg)
        } else {
            st.about
        },
        ..st
    }
}

/// The reading once each of several annotations has been read, in order.
pub open spec fn annotate_all(st: Reading, parts: Seq<Seq<char>>) -> Reading
    decreases parts.len(),
{
    if parts.len() == 0 {
        st
    } else {
        annotate_all(annotate(st, trim(parts[0])), parts.skip(1))
    }
}

/// The reading once the comment `c` has been read. Several annotations may
/// share one comment.
pub open spec fn read_comment(st: Reading, c: Seq<char>) -> Reading {
    if c.len() > 0 && c[0] == '@' {
        annotate_all(st, split_text(c.skip(1), "--@"@))
    } else if c.len() > 0 && c[0] != '-' {
        Reading { notes: st.notes.push(c), ..st }
    } else {
        st
    }
}

/// Does this code open the `defaults` table?
pub open spec fn opens_defaults(code: Seq<char>) -> bool {
    has_prefix(code, "defaults"@) && code.contains('=') && code.contains('{')
}

/// The param that the line `code` declares under the name `name`.
pub open spec fn declared(st: Reading, code: Seq<char>, name: Seq<char>) -> ParamModel {
    ParamModel {
        name,
        default: literal_part(code),
        boolean: st.pending.boolean || assigns_bool(code),
        desc: if st.pending.desc is None && st.notes.len() > 0 {
            Some(join(st.notes, seq![' ']))
        } else {
            st.pending.desc
        },
        ..st.pending
    }
}

/// The braces that are open after `code`, where `depth` were open before it. None
/// is open once as many have closed.
pub open spec fn depth_after(depth: nat, code: Seq<char>) -> nat {
    let opened = depth + count_of(code, '{');
    let closes = count_of(code, '}');
    if closes < opened {
        (opened - closes) as nat
    } else {
        0
    }
}

/// The reading once the code of a line, trimmed, has been read. A table that closes
/// on the line that opens it is over with that line.
pub open spec fn read_code(st: Reading, code: Seq<char>) -> Reading {
    if !st.inside {
        if opens_defaults(code) {
            Reading {
                inside: depth_after(0, code) > 0,
                depth: depth_after(0, code),
                about: st.about + st.notes,
                notes: seq![],
                pending: blank_param(),
                ..st
            }
        } else if code.len() > 0 {
            Reading { notes: seq![], ..st }
        } else {
            st
        }
    } else {
        let key = key_part(code);
        let kept = if st.depth == 1 && key is Some {
            Reading {
                params: st.params.push(declared(st, code, key->Some_0)),
                pending: blank_param(),
                notes: seq![],
                ..st
            }
        } else if code.len() > 0 && code[0] != '}' {
            Reading { notes: seq![], ..st }
        } else {
            st
        };
        let depth = depth_after(st.depth, code);
        if depth == 0 {
            Reading { inside: false, depth, notes: seq![], pending: blank_param(), ..kept }
        } else {
            Reading { depth, ..kept }
        }
    }
}

/// The reading once the line `raw` has been read.
pub open spec fn read_line(st: Reading, raw: Seq<char>) -> Reading {
    let code = trim(code_part(raw));
    match comment_part(raw) {
        Some(c) => if code.len() == 0 {
            read_comment(st, c)
        } else {
            read_code(read_comment(st, c), code)
        },
        None => read_code(st, code),
    }
}

/// The first line of `s`, without the line break that ends it.
pub open spec fn first_line(s: Seq<char>) -> Seq<char> {
    let n = index_of(s, '\n');
    if n < s.len() && n > 0 && s[n - 1] == '\r' {
        s.take(n - 1)
    } else {
        s.take(n)
    }
}

/// What stands after the first line of `s`.
pub open spec fn after_line(s: Seq<char>) -> Seq<char> {
    let n = index_of(s, '\n');
    if n < s.len() {
        s.skip(n + 1)
    } else {
        seq![]
    }
}

/// The reading once every line of `s` has been read.
pub open spec fn read_all(st: Reading, s: Seq<char>) -> Reading
    decreases s.len(),
{
    proof {
        lemma_index_of(s, '\n');
    }
    if s.len() == 0 {
        st
    } else {
        read_all(read_line(st, first_line(s)), after_line(s))
    }
}

/// What the source `src` tells the Inspector.
pub open spec fn meta_in(src: Seq<char>) -> MetaModel {
    let end = read_all(nothing_read(), src);
    MetaModel {
        params: end.params,
        buttons: end.buttons,
        about: if end.about.len() > 0 {
            Some(join(end.about, seq![' ']))
        } else {
            None
        },
    }
}

/// The braces that are open after `code`, where `depth` were open before it.
fn open_after(depth: usize, code: &[char]) -> (out: usize)
    requires
        depth + code@.len() <= usize::MAX,
    ensures
        out == depth_after(depth as nat, code@),
        out <= depth + code@.len(),
{
    let opened: usize = depth + count(code, '{');
    let closes: usize = count(code, '}');
    if closes < opened {
        opened - closes
    } else {
        0
    }
}

/// The reading as it is held while a source is read.
struct Reader {
    meta: ScriptMeta,
    about: Vec<String>,
    pending: ParamMeta,
    notes: Vec<String>,
    depth: usize,
    inside: bool,
}

impl Reader {
    /// How far the reading has come.
    spec fn reading(&self) -> Reading {
        Reading {
            params: param_models(self.meta.params@),
            buttons: pair_texts(self.meta.buttons@),
            about: texts(self.about@),
            pending: self.pending@,
            notes: texts(self.notes@),
            depth: self.depth as nat,
            inside: self.inside,
        }
    }

    /// Reads the comment `c`.
    fn comment(&mut self, c: &[char])
        ensures
            final(self).reading() == read_comment(old(self).reading(), c@),
            final(self).depth == old(self).depth,
            final(self).meta.about == old(self).meta.about,
    {
        if c.len() > 0 && c[0] == '@' {
            let mut rest: &[char] = slice_subrange(c, 1, c.len());
            assert(rest@ == c@.skip(1));
            let sep: Vec<char> = chars_of("--@");
            proof {
                reveal_strlit("--@");
            }
            loop
                invariant_except_break
                    sep@ == "--@"@,
                    sep@.len() == 3,
                    annotate_all(old(self).reading(), split_text(c@.skip(1), "--@"@))
                        == annotate_all(self.reading(), split_text(rest@, "--@"@)),
                    self.depth == old(self).depth,
                    self.meta.about == old(self).meta.about,
                ensures
                    self.reading() == annotate_all(
                        old(self).reading(),
                        split_text(c@.skip(1), "--@"@),
                    ),
                    self.depth == old(self).depth,
                    self.meta.about == old(self).meta.about,
                decreases rest@.len(),
            {
                let n: usize = find_text(rest, sep.as_slice());
                let part: &[char] = slice_subrange(rest, 0, n);
                assert(part@ == rest@.take(n as int));
                let ghost pieces = split_text(rest@, "--@"@);
                let ghost was = self.reading();
                apply_annotation(
                    trimmed(part),
                    &mut self.pending,
                    &mut self.meta,
                    &mut self.about,
                );
                assert(self.reading() =~= annotate(was, trim(part@)));
                if n >= rest.len() {
                    proof {
                        assert(rest@.take(n as int) == rest@);
                        assert(pieces[0] == rest@);
                        assert(pieces.skip(1) =~= seq![]);
                        reveal_with_fuel(annotate_all, 2);
                    }
                    break;
                }
                let next: &[char] = slice_subrange(rest, n + 3, rest.len());
                proof {
                    assert(next@ == rest@.skip(n + 3));
                    assert(pieces[0] == rest@.take(n as int));
                    assert(pieces.skip(1) =~= split_text(next@, "--@"@));
                }
                rest = next;
            }
        } else if c.len() > 0 && c[0] != '-' {
            let ghost was = self.notes@;
            self.notes.push(text_of(c));
            assert(texts(self.notes@) =~= texts(was).push(c@));
        }
    }

    /// Reads the code of a line, trimmed.
    fn code(&mut self, code: &[char])
        requires
            old(self).depth + code@.len() <= usize::MAX,
        ensures
            final(self).reading() == read_code(old(self).reading(), code@),
            final(self).depth <= old(self).depth + code@.len(),
            final(self).meta.about == old(self).meta.about,
    {
        if !self.inside {
            let word: Vec<char> = chars_of("defaults");
            if begins_with(code, word.as_slice()) && holds_char(code, '=') && holds_char(
                code,
                '{',
            ) {
                proof {
                    reveal_strlit("defaults");
                }
                self.depth = open_after(0, code);
                self.inside = self.depth > 0;
                let ghost was = self.reading();
                self.about.append(&mut self.notes);
                assert(texts(self.about@) =~= was.about + was.notes);
                self.pending = ParamMeta::default();
                assert(self.reading().notes =~= seq![]);
            } else if code.len() > 0 {
                self.notes.clear();
                assert(self.reading().notes =~= seq![]);
            }
            return;
        }
        let key: Option<String> = if self.depth == 1 {
            key_in(code)
        } else {
            None
        };
        let ghost st = self.reading();
        match key {
            Some(name) => {
                let mut param: ParamMeta = ParamMeta::default();
                core::mem::swap(&mut param, &mut self.pending);
                param.name = name;
                param.default = literal_in(code);
                if bool_in(code) {
                    param.boolean = true;
                }
                if param.desc.is_none() && self.notes.len() > 0 {
                    param.desc = Some(join_with_blank(&self.notes));
                }
                assert(param@ =~= declared(st, code@, key_part(code@)->Some_0));
                let ghost was = self.meta.params@;
                self.meta.params.push(param);
                assert(param_models(self.meta.params@) =~= param_models(was).push(param@));
                self.notes.clear();
                assert(self.reading().notes =~= seq![]);
            },
            None => {
                if code.len() > 0 && code[0] != '}' {
                    self.notes.clear();
                    assert(self.reading().notes =~= seq![]);
                }
            },
        }
        self.depth = open_after(self.depth, code);
        if self.depth == 0 {
            self.inside = false;
            self.notes.clear();
            self.pending = ParamMeta::default();
            assert(self.reading().notes =~= seq![]);
        }
    }

    /// Reads one line.
    fn line(&mut self, raw: &[char])
        requires
            old(self).depth + raw@.len() <= usize::MAX,
        ensures
            final(self).reading() == read_line(old(self).reading(), raw@),
            final(self).depth <= old(self).depth + raw@.len(),
            final(self).meta.about == old(self).meta.about,
    {
        let k: usize = find_comment(raw);
        let before: &[char] = slice_subrange(raw, 0, k);
        assert(before@ == code_part(raw@));
        let code: &[char] = trimmed(before);
        proof {
            lemma_trim_len(before@);
        }
        if k < raw.len() {
            let after: &[char] = slice_subrange(raw, k + 2, raw.len());
            assert(after@ == raw@.skip(k + 2));
            self.comment(trimmed(after));
            if code.len() == 0 {
                return;
            }
        }
        self.code(code);
    }
}

/// Trimming never makes text longer.
proof fn lemma_trim_len(s: Seq<char>)
    ensures
        trim(s).len() <= s.len(),
{
    lemma_trim_start(s);
    lemma_trim_end_len(trim_start(s));
}

/// Trimming the end never makes text longer.
proof fn lemma_trim_end_len(s: Seq<char>)
    ensures
        trim_end(s).len() <= s.len(),
    decreases s.len(),
{
    if s.len() > 0 && is_white(s.last()) {
        lemma_trim_end_len(s.drop_last());
    }
}

/// What the source `src` tells the Inspector.
pub fn parse(src: &str) -> (out: ScriptMeta)
    ensures
        out@ == meta_in(src@),
{
    let s: Vec<char> = chars_of(src);
    let mut reader: Reader = Reader {
        meta: ScriptMeta::default(),
        about: Vec::new(),
        pending: ParamMeta::default(),
        notes: Vec::new(),
        depth: 0,
        inside: false,
    };
    assert(reader.reading() =~= nothing_read());
    let mut at: usize = 0;
    assert(s@.skip(0) == s@);
    while at < s.len()
        invariant
            at <= s.len(),
            reader.depth <= at,
            reader.meta.about is None,
            read_all(nothing_read(), s@) == read_all(reader.reading(), s@.skip(at as int)),
        decreases s.len() - at,
    {
        let rest: &[char] = slice_subrange(s.as_slice(), at, s.len());
        assert(rest@ == s@.skip(at as int));
        let n: usize = find(rest, '\n');
        let hi: usize = if n < rest.len() && n > 0 && rest[n - 1] == '\r' {
            n - 1
        } else {
            n
        };
        let raw: &[char] = slice_subrange(rest, 0, hi);
        assert(raw@ == first_line(rest@));
        reader.line(raw);
        if n < rest.len() {
            assert(rest@.skip(n + 1) == s@.skip(at + n + 1));
            at = at + n + 1;
        } else {
            assert(after_line(rest@) == s@.skip(s@.len() as int));
            at = s.len();
        }
    }
    assert(read_all(reader.reading(), s@.skip(at as int)) == reader.reading());
    let mut meta: ScriptMeta = reader.meta;
    if reader.about.len() > 0 {
        meta.about = Some(join_with_blank(&reader.about));
    }
    assert(meta@ =~= meta_in(src@));
    meta
}

// ---- laws ------------------------------------------------------------------

/// Is this the tag of an annotation that is known?
pub open spec fn is_known_tag(t: Seq<char>) -> bool {
    is_param_tag(t) || t == "about"@ || t == "editorButton"@
}

/// An annotation with a tag that is not known changes nothing, so a typo never
/// stops a script from being read.
pub proof fn law_unknown_annotation_changes_nothing(st: Reading, text: Seq<char>)
    requires
        !is_known_tag(tag_of(text)),
    ensures
        annotate(st, text) == st,
{
}

/// Whether an annotation says that the next param is shown in some way is for the tags of
/// that way alone: each of these marks is set by its own tags and by no others, and once set
/// it stays. So no tag but `hidden` and `hide` ever hides a param.
pub proof fn law_a_tag_sets_its_own_mark(p: ParamModel, tag: Seq<char>, arg: Seq<char>)
    ensures
        ({
            let q = annotated(p, tag, arg);
            &&& q.hidden <==> p.hidden || tag == "hidden"@ || tag == "hide"@
            &&& q.multiline <==> p.multiline || tag == "multiline"@ || tag == "text"@
            &&& q.boolean <==> p.boolean || tag == "bool"@ || tag == "toggle"@
            &&& q.color <==> p.color || tag == "color"@ || tag == "colour"@
            &&& q.slider <==> p.slider || tag == "slider"@
        }),
{
    lemma_tags_differ(tag);
}

/// What an annotation says is kept in the field of its tag, and every other field stays as
/// it was. No annotation ever changes the name of a param, or what it starts from.
pub proof fn law_a_tag_fills_its_own_field(p: ParamModel, tag: Seq<char>, arg: Seq<char>)
    ensures
        ({
            let q = annotated(p, tag, arg);
            let describes = tag == "desc"@ || tag == "description"@ || tag == "tooltip"@;
            let bounds = tag == "range"@ || tag == "slider"@;
            let lists = tag == "options"@ || tag == "enum"@;
            let measures = tag == "units"@ || tag == "unit"@ || tag == "suffix"@;
            &&& q.name == p.name
            &&& q.default == p.default
            &&& tag == "header"@ ==> q.header == Some(replaced(arg, '_', ' '))
            &&& tag != "header"@ ==> q.header == p.header
            &&& describes && p.desc is None ==> q.desc == Some(arg)
            &&& describes && p.desc is Some ==> q.desc == Some(p.desc->Some_0 + seq![' '] + arg)
            &&& !describes ==> q.desc == p.desc
            &&& bounds && numbers_in(arg).len() >= 2 ==> q.range == Some(
                (numbers_in(arg)[0], numbers_in(arg)[1]),
            )
            &&& !bounds || numbers_in(arg).len() < 2 ==> q.range == p.range
            &&& tag == "step"@ && numbers_in(arg).len() >= 1 ==> q.step == Some(numbers_in(arg)[0])
            &&& tag == "step"@ && numbers_in(arg).len() == 0 ==> q.step is None
            &&& tag != "step"@ ==> q.step == p.step
            &&& lists ==> q.options == entries_in(arg)
            &&& !lists ==> q.options == p.options
            &&& measures ==> q.units == Some(arg)
            &&& !measures ==> q.units == p.units
        }),
{
    lemma_tags_differ(tag);
}

/// No text is two tags.
proof fn lemma_tags_differ(tag: Seq<char>)
    ensures
        ({
            let is_header = tag == "header"@;
            let describes = tag == "desc"@ || tag == "description"@ || tag == "tooltip"@;
            let bounds = tag == "range"@ || tag == "slider"@;
            let is_step = tag == "step"@;
            let lists = tag == "options"@ || tag == "enum"@;
            let is_bool = tag == "bool"@ || tag == "toggle"@;
            let is_color = tag == "color"@ || tag == "colour"@;
            let is_text = tag == "multiline"@ || tag == "text"@;
            let measures = tag == "units"@ || tag == "unit"@ || tag == "suffix"@;
            let hides = tag == "hidden"@ || tag == "hide"@;
            &&& is_header ==> !describes && !bounds && !is_step && !lists && !is_bool && !is_color
                && !is_text && !measures && !hides
            &&& describes ==> !bounds && !is_step && !lists && !is_bool && !is_color && !is_text
                && !measures && !hides
            &&& bounds ==> !is_step && !lists && !is_bool && !is_color && !is_text && !measures
                && !hides
            &&& is_step ==> !lists && !is_bool && !is_color && !is_text && !measures && !hides
            &&& lists ==> !is_bool && !is_color && !is_text && !measures && !hides
            &&& is_bool ==> !is_color && !is_text && !measures && !hides
            &&& is_color ==> !is_text && !measures && !hides
            &&& is_text ==> !measures && !hides
            &&& measures ==> !hides
        }),
{
    reveal_strlit("header");
    reveal_strlit("desc");
    reveal_strlit("description");
    reveal_strlit("tooltip");
    reveal_strlit("range");
    reveal_strlit("slider");
    reveal_strlit("step");
    reveal_strlit("options");
    reveal_strlit("enum");
    reveal_strlit("bool");
    reveal_strlit("toggle");
    reveal_strlit("color");
    reveal_strlit("colour");
    reveal_strlit("multiline");
    reveal_strlit("text");
    reveal_strlit("units");
    reveal_strlit("unit");
    reveal_strlit("suffix");
    reveal_strlit("hidden");
    reveal_strlit("hide");
    assert(tag == "header"@ ==> tag.len() == 6 && tag[0] == 'h' && tag[1] == 'e' && tag[2]
        == 'a');
    assert(tag == "desc"@ ==> tag.len() == 4 && tag[0] == 'd' && tag[1] == 'e' && tag[2]
        == 's');
    assert(tag == "description"@ ==> tag.len() == 11 && tag[0] == 'd' && tag[1] == 'e' && tag[2]
        == 's');
    assert(tag == "tooltip"@ ==> tag.len() == 7 && tag[0] == 't' && tag[1] == 'o' && tag[2]
        == 'o');
    assert(tag == "range"@ ==> tag.len() == 5 && tag[0] == 'r' && tag[1] == 'a' && tag[2]
        == 'n');
    assert(tag == "slider"@ ==> tag.len() == 6 && tag[0] == 's' && tag[1] == 'l' && tag[2]
        == 'i');
    assert(tag == "step"@ ==> tag.len() == 4 && tag[0] == 's' && tag[1] == 't' && tag[2]
        == 'e');
    assert(tag == "options"@ ==> tag.len() == 7 && tag[0] == 'o' && tag[1] == 'p' && tag[2]
        == 't');
    assert(tag == "enum"@ ==> tag.len() == 4 && tag[0] == 'e' && tag[1] == 'n' && tag[2]
        == 'u');
    assert(tag == "bool"@ ==> tag.len() == 4 && tag[0] == 'b' && tag[1] == 'o' && tag[2]
        == 'o');
    assert(tag == "toggle"@ ==> tag.len() == 6 && tag[0] == 't' && tag[1] == 'o' && tag[2]
        == 'g');
    assert(tag == "color"@ ==> tag.len() == 5 && tag[0] == 'c' && tag[1] == 'o' && tag[2]
        == 'l');
    assert(tag == "colour"@ ==> tag.len() == 6 && tag[0] == 'c' && tag[1] == 'o' && tag[2]
        == 'l');
    assert(tag == "multiline"@ ==> tag.len() == 9 && tag[0] == 'm' && tag[1] == 'u' && tag[2]
        == 'l');
    assert(tag == "text"@ ==> tag.len() == 4 && tag[0] == 't' && tag[1] == 'e' && tag[2]
        == 'x');
    assert(tag == "units"@ ==> tag.len() == 5 && tag[0] == 'u' && tag[1] == 'n' && tag[2]
        == 'i');
    assert(tag == "unit"@ ==> tag.len() == 4 && tag[0] == 'u' && tag[1] == 'n' && tag[2]
        == 'i');
    assert(tag == "suffix"@ ==> tag.len() == 6 && tag[0] == 's' && tag[1] == 'u' && tag[2]
        == 'f');
    assert(tag == "hidden"@ ==> tag.len() == 6 && tag[0] == 'h' && tag[1] == 'i' && tag[2]
        == 'd');
    assert(tag == "hide"@ ==> tag.len() == 4 && tag[0] == 'h' && tag[1] == 'i' && tag[2]
        == 'd');
}

/// Does the line `raw` hold annotations that are not known, and nothing else?
pub open spec fn is_unknown_only(raw: Seq<char>) -> bool {
    &&& trim(code_part(raw)).len() == 0
    &&& comment_part(raw) matches Some(c) && c.len() > 0 && c[0] == '@' && forall|i: int|
        0 <= i < split_text(c.skip(1), "--@"@).len() ==> !is_known_tag(
            tag_of(trim(#[trigger] split_text(c.skip(1), "--@"@)[i])),
        )
}

/// Annotations that are not known change nothing, however many share a comment.
proof fn lemma_unknown_parts(st: Reading, parts: Seq<Seq<char>>)
    requires
        forall|i: int| 0 <= i < parts.len() ==> !is_known_tag(tag_of(trim(#[trigger] parts[i]))),
    ensures
        annotate_all(st, parts) == st,
    decreases parts.len(),
{
    if parts.len() > 0 {
        law_unknown_annotation_changes_nothing(st, trim(parts[0]));
        assert forall|i: int| 0 <= i < parts.skip(1).len() implies !is_known_tag(
            tag_of(trim(#[trigger] parts.skip(1)[i])),
        ) by {
            assert(parts.skip(1)[i] == parts[i + 1]);
        }
        lemma_unknown_parts(st, parts.skip(1));
    }
}

/// Whole lines are read one after the other: what follows them is read as they
/// leave the reading.
proof fn lemma_read_on(st: Reading, a: Seq<char>, rest: Seq<char>)
    requires
        a.len() == 0 || a.last() == '\n',
    ensures
        read_all(st, a + rest) == read_all(read_all(st, a), rest),
    decreases a.len(),
{
    if a.len() == 0 {
        assert(a + rest =~= rest);
    } else {
        let s = a + rest;
        lemma_first_break(a, rest);
        let n = index_of(a, '\n');
        let less = after_line(a);
        assert(s.take(n) =~= a.take(n));
        if n > 0 {
            assert(s[n - 1] == a[n - 1]);
            assert(s.take(n - 1) =~= a.take(n - 1));
        }
        assert(first_line(s) == first_line(a));
        assert(after_line(s) =~= less + rest);
        if less.len() > 0 {
            assert(less.last() == a.last());
        }
        lemma_read_on(read_line(st, first_line(a)), less, rest);
    }
}

/// Text that ends in a line break has its first one in itself, whatever follows.
proof fn lemma_first_break(a: Seq<char>, rest: Seq<char>)
    requires
        a.len() > 0,
        a.last() == '\n',
    ensures
        0 <= index_of(a, '\n') < a.len(),
        index_of(a + rest, '\n') == index_of(a, '\n'),
{
    let s = a + rest;
    lemma_index_of(a, '\n');
    lemma_index_of(s, '\n');
    let (n, m) = (index_of(a, '\n'), index_of(s, '\n'));
    assert(a.contains('\n')) by {
        assert(a[a.len() - 1] == '\n');
    }
    assert(s[n] == '\n');
    assert(s.contains('\n'));
    if m < n {
        assert(a[m] == s[m]);
    }
}

/// A line that holds an annotation which is not known, and nothing else, is as good
/// as not there: put into a source between two of its lines, or taken out, it changes
/// nothing of what the source tells. So a typo never stops a script from being
/// edited, and what was said above the line still belongs to what stands below it.
pub proof fn law_an_unknown_annotation_is_ignored(a: Seq<char>, line: Seq<char>, b: Seq<char>)
    requires
        a.len() == 0 || a.last() == '\n',
        !line.contains('\n'),
        is_unknown_only(first_line(line.push('\n'))),
    ensures
        meta_in(a + line.push('\n') + b) == meta_in(a + b),
{
    let whole = line.push('\n');
    let st = read_all(nothing_read(), a);
    let raw = first_line(whole);
    assert(a + whole + b =~= a + (whole + b));
    lemma_read_on(nothing_read(), a, whole + b);
    lemma_read_on(nothing_read(), a, b);
    lemma_read_on(st, whole, b);
    lemma_first_break(whole, seq![]);
    lemma_index_of(whole, '\n');
    let n = index_of(whole, '\n');
    assert(n == line.len()) by {
        if n < line.len() {
            assert(line[n] == '\n');
        }
    }
    assert(after_line(whole) =~= seq![]);
    lemma_unknown_parts(st, split_text(comment_part(raw)->Some_0.skip(1), "--@"@));
    assert(read_line(st, raw) == st);
    assert(read_all(st, whole) == read_all(st, seq![]));
}

/// The same of a line as it is written: `--@`, a tag that is not known, and whatever
/// is said after it, as long as no further annotation is.
#[verifier::rlimit(40)]
pub proof fn law_a_line_with_an_unknown_tag_is_ignored(
    a: Seq<char>,
    tag: Seq<char>,
    said: Seq<char>,
    b: Seq<char>,
)
    requires
        a.len() == 0 || a.last() == '\n',
        tag.len() > 0,
        forall|i: int| 0 <= i < tag.len() ==> !is_white(#[trigger] tag[i]),
        !is_known_tag(tag),
        said.len() == 0 || is_white(said[0]),
        !said.contains('\n'),
        !occurs(tag + said, "--@"@),
    ensures
        meta_in(a + ("--@"@ + tag + said).push('\n') + b) == meta_in(a + b),
{
    reveal_strlit("--@");
    let line = "--@"@ + tag + said;
    let whole = line.push('\n');
    assert forall|i: int| 0 <= i < line.len() implies #[trigger] line[i] != '\n' by {
        if 3 <= i < 3 + tag.len() {
            assert(line[i] == tag[i - 3]);
        } else if i >= 3 + tag.len() {
            assert(line[i] == said[i - 3 - tag.len()]);
        }
    }
    lemma_index_of(whole, '\n');
    let n = index_of(whole, '\n');
    assert(whole[line.len() as int] == '\n');
    assert(whole.contains('\n'));
    assert(n == line.len()) by {
        if n < line.len() {
            assert(line[n] == whole[n]);
        }
    }
    let raw = first_line(whole);
    let k = raw.len() as int;
    assert(raw =~= line.take(k));
    assert(k >= 3 + tag.len()) by {
        if k < line.len() {
            assert(whole[n - 1] == '\r');
            if said.len() == 0 {
                assert(line[n - 1] == tag[tag.len() - 1]);
            }
        }
    }
    assert(comment_at(raw, 0, None) == 0);
    assert(code_part(raw) =~= seq![]);
    assert(trim(code_part(raw)).len() == 0);
    let body = raw.skip(2);
    assert(body[0] == '@');
    assert(trim_start(body) == body);
    assert(body[tag.len() as int] == tag[tag.len() - 1]);
    let m = lemma_trim_end_keeps(body, (tag.len() + 1) as int);
    let c = body.take(m);
    assert(comment_part(raw) == Some(c));
    let text = c.skip(1);
    assert(text =~= (tag + said).take(m - 1));
    assert forall|j: int| !occurs_at(text, "--@"@, j) by {
        if occurs_at(text, "--@"@, j) {
            assert((tag + said).subrange(j, j + 3) =~= text.subrange(j, j + 3));
            assert(occurs_at(tag + said, "--@"@, j));
        }
    }
    lemma_text_not_there(text, "--@"@, 0);
    assert(split_text(text, "--@"@) =~= seq![text]);
    assert(text[0] == tag[0]);
    assert(trim_start(text) == text);
    assert(text[tag.len() - 1] == tag[tag.len() - 1]);
    let p = lemma_trim_end_keeps(text, tag.len() as int);
    let part = text.take(p);
    assert(trim(text) == part);
    assert forall|j: int| 0 <= j < tag.len() implies !is_white(#[trigger] part[j]) by {
        assert(part[j] == tag[j]);
    }
    if tag.len() < part.len() {
        assert(part[tag.len() as int] == said[0]);
    }
    lemma_white_is_at(part, tag.len() as int);
    assert(tag_of(part) =~= tag);
    law_an_unknown_annotation_is_ignored(a, line, b);
}

/// Trimming the end leaves what ends in no white space.
proof fn lemma_trim_end_keeps(s: Seq<char>, n: int) -> (m: int)
    requires
        0 < n <= s.len(),
        !is_white(s[n - 1]),
    ensures
        n <= m <= s.len(),
        trim_end(s) == s.take(m),
    decreases s.len(),
{
    if is_white(s.last()) {
        let m = lemma_trim_end_keeps(s.drop_last(), n);
        assert(s.drop_last().take(m) =~= s.take(m));
        m
    } else {
        assert(s.take(s.len() as int) =~= s);
        s.len() as int
    }
}

/// Text that does not occur is found nowhere.
proof fn lemma_text_not_there(s: Seq<char>, sep: Seq<char>, i: int)
    requires
        0 <= i <= s.len(),
        forall|j: int| !occurs_at(s, sep, j),
    ensures
        index_of_text(s, sep, i) == s.len(),
    decreases s.len() - i,
{
    if i < s.len() {
        lemma_text_not_there(s, sep, i + 1);
    }
}

/// The first white space is where there is none before.
proof fn lemma_white_is_at(s: Seq<char>, n: int)
    requires
        0 <= n <= s.len(),
        forall|j: int| 0 <= j < n ==> !is_white(#[trigger] s[j]),
        n == s.len() || is_white(s[n]),
    ensures
        index_of_white(s) == n,
    decreases n,
{
    if n > 0 {
        assert forall|j: int| 0 <= j < n - 1 implies !is_white(#[trigger] s.skip(1)[j]) by {
            assert(s.skip(1)[j] == s[j + 1]);
        }
        lemma_white_is_at(s.skip(1), n - 1);
    }
}

/// Annotations touch neither the params nor the plain comments, and they open
/// and close nothing.
proof fn lemma_annotate_all_frame(st: Reading, parts: Seq<Seq<char>>)
    ensures
        annotate_all(st, parts).params == st.params,
        annotate_all(st, parts).notes == st.notes,
        annotate_all(st, parts).depth == st.depth,
        annotate_all(st, parts).inside == st.inside,
    decreases parts.len(),
{
    if parts.len() > 0 {
        lemma_annotate_all_frame(annotate(st, trim(parts[0])), parts.skip(1));
    }
}

/// A line that holds nothing but a comment never ends the block above a param:
/// what has been noted stays, no param is declared, and no brace is counted. A
/// plain comment leaves the annotations as they were.
pub proof fn law_comment_line_keeps_the_block(st: Reading, raw: Seq<char>)
    requires
        comment_part(raw) is Some,
        trim(code_part(raw)).len() == 0,
    ensures
        ({
            let next = read_line(st, raw);
            let c = comment_part(raw)->Some_0;
            &&& next.params == st.params
            &&& next.depth == st.depth
            &&& next.inside == st.inside
            &&& st.notes.is_prefix_of(next.notes)
            &&& !(c.len() > 0 && c[0] == '@') ==> next.pending == st.pending && next.buttons
                == st.buttons && next.about == st.about
        }),
{
    let c = comment_part(raw)->Some_0;
    if c.len() > 0 && c[0] == '@' {
        lemma_annotate_all_frame(st, split_text(c.skip(1), "--@"@));
    }
}

/// Annotations and comments never leak onto the next param: once a param has
/// been declared, nothing is pending. The param itself has what was pending.
pub proof fn law_annotations_never_leak(st: Reading, code: Seq<char>)
    requires
        st.inside,
        st.depth == 1,
        key_part(code) is Some,
    ensures
        read_code(st, code).pending == blank_param(),
        read_code(st, code).notes == Seq::<Seq<char>>::empty(),
        read_code(st, code).params == st.params.push(
            declared(st, code, key_part(code)->Some_0),
        ),
{
}

/// The keys of a table inside `defaults` are no params.
pub proof fn law_nested_keys_are_no_params(st: Reading, code: Seq<char>)
    requires
        st.inside,
        st.depth != 1,
    ensures
        read_code(st, code).params == st.params,
{
}

/// What is assigned outside of the table is no param, and the table is over once
/// every brace of it has closed: on the very line that opens it, where that is so.
pub proof fn law_nothing_outside_is_a_param(st: Reading, code: Seq<char>)
    ensures
        !st.inside ==> read_code(st, code).params == st.params,
        opens_defaults(code) && count_of(code, '{') <= count_of(code, '}') ==> !read_code(
            Reading { inside: false, ..st },
            code,
        ).inside,
        st.inside ==> (read_code(st, code).inside <==> depth_after(st.depth, code) > 0),
{
}

/// A comparison declares nothing.
pub proof fn law_a_comparison_is_no_assignment(code: Seq<char>)
    requires
        compares_at(code, index_of(code, '=')),
    ensures
        key_part(code) is None,
{
}

/// One line declares at most one param, after those that were there.
proof fn lemma_line_params(st: Reading, raw: Seq<char>)
    ensures
        st.params.is_prefix_of(read_line(st, raw).params),
        read_line(st, raw).params.len() <= st.params.len() + 1,
{
    match comment_part(raw) {
        Some(c) => {
            if c.len() > 0 && c[0] == '@' {
                lemma_annotate_all_frame(st, split_text(c.skip(1), "--@"@));
            }
        },
        None => {},
    }
}

/// Params come in the order in which they are declared: reading on only ever
/// adds to the end of them.
pub proof fn law_params_keep_their_order(st: Reading, s: Seq<char>)
    ensures
        st.params.is_prefix_of(read_all(st, s).params),
    decreases s.len(),
{
    if s.len() > 0 {
        lemma_index_of(s, '\n');
        lemma_line_params(st, first_line(s));
        let next = read_line(st, first_line(s));
        law_params_keep_their_order(next, after_line(s));
        let end = read_all(st, s).params;
        assert(st.params =~= end.take(st.params.len() as int)) by {
            assert(next.params =~= end.take(next.params.len() as int));
            assert(st.params =~= next.params.take(st.params.len() as int));
        }
    }
}

/// Does some line of `s` open the `defaults` table?
pub open spec fn has_table(s: Seq<char>) -> bool
    decreases s.len(),
{
    proof {
        lemma_index_of(s, '\n');
    }
    s.len() > 0 && (opens_defaults(trim(code_part(first_line(s)))) || has_table(after_line(s)))
}

/// A script without a `defaults` table has no params.
pub proof fn law_no_table_no_params(st: Reading, s: Seq<char>)
    requires
        !st.inside,
        !has_table(s),
    ensures
        read_all(st, s).params == st.params,
    decreases s.len(),
{
    if s.len() > 0 {
        lemma_index_of(s, '\n');
        let raw = first_line(s);
        match comment_part(raw) {
            Some(c) => {
                if c.len() > 0 && c[0] == '@' {
                    lemma_annotate_all_frame(st, split_text(c.skip(1), "--@"@));
                }
            },
            None => {},
        }
        law_no_table_no_params(read_line(st, raw), after_line(s));
    }
}

/// What stands inside a string is text, never a comment: once a string is open,
/// the search goes on behind the quote that closes it.
pub proof fn law_strings_hold_no_comment(s: Seq<char>, i: int, end: int, q: char)
    requires
        0 <= i <= end < s.len(),
        q != '\\',
        s[end] == q,
        forall|j: int| i <= j < end ==> s[j] != q && s[j] != '\\',
    ensures
        comment_at(s, i, Some(q)) == comment_at(s, end + 1, None),
    decreases end - i,
{
    if i < end {
        law_strings_hold_no_comment(s, i + 1, end, q);
    }
}

/// A button stands for an annotation that names one, behind those that were there. Its label
/// is the first word, with blanks for underscores; it calls the second, or the first where
/// there is no second. No other annotation adds a button.
pub proof fn law_a_button_is_its_words(
    buttons: Seq<(Seq<char>, Seq<char>)>,
    tag: Seq<char>,
    arg: Seq<char>,
)
    ensures
        ({
            let after = with_button(buttons, tag, arg);
            let ws = words(arg);
            &&& buttons.is_prefix_of(after)
            &&& after.len() == buttons.len() + if tag == "editorButton"@ && ws.len() > 0 {
                1nat
            } else {
                0nat
            }
            &&& after.len() > buttons.len() ==> after.last().0 == replaced(ws[0], '_', ' ')
            &&& after.len() > buttons.len() && ws.len() == 1 ==> after.last().1 == ws[0]
            &&& after.len() > buttons.len() && ws.len() > 1 ==> after.last().1 == ws[1]
        }),
{
}

/// What a script says about itself is said by `about` alone, in the order of the source.
pub proof fn law_a_script_speaks_for_itself(st: Reading, text: Seq<char>)
    ensures
        st.about.is_prefix_of(annotate(st, text).about),
        tag_of(text) == "about"@ ==> annotate(st, text).about.len() == st.about.len() + 1
            && annotate(st, text).about.last() == arg_of(text),
        tag_of(text) != "about"@ ==> annotate(st, text).about == st.about,
        tag_of(text) != "editorButton"@ ==> annotate(st, text).buttons == st.buttons,
        annotate(st, text).pending == annotated(st.pending, tag_of(text), arg_of(text)),
        annotate(st, text).params == st.params,
        annotate(st, text).notes == st.notes,
        annotate(st, text).depth == st.depth,
        annotate(st, text).inside == st.inside,
{
}

/// Several annotations in one comment are read one after the other.
pub proof fn law_annotations_are_read_in_order(
    st: Reading,
    a: Seq<Seq<char>>,
    b: Seq<Seq<char>>,
)
    ensures
        annotate_all(st, a + b) == annotate_all(annotate_all(st, a), b),
    decreases a.len(),
{
    if a.len() == 0 {
        assert(a + b =~= b);
    } else {
        law_annotations_are_read_in_order(annotate(st, trim(a[0])), a.skip(1), b);
        assert((a + b)[0] == a[0]);
        assert((a + b).skip(1) =~= a.skip(1) + b);
    }
}

/// A plain comment is noted, behind what was noted before, and changes nothing else. A
/// comment that begins with a dash draws a line and is not noted.
pub proof fn law_a_plain_comment_is_noted(st: Reading, c: Seq<char>)
    requires
        c.len() > 0 ==> c[0] != '@',
    ensures
        c.len() > 0 && c[0] != '-' ==> read_comment(st, c).notes == st.notes.push(c),
        c.len() == 0 || c[0] == '-' ==> read_comment(st, c) == st,
        read_comment(st, c) == (Reading { notes: read_comment(st, c).notes, ..st }),
{
}

/// A param has the name of its line, the value that the line assigns, and all that was said
/// of it. What an annotation says of it wins over plain comments, and a line that assigns
/// `true` or `false` makes it a switch.
pub proof fn law_a_param_is_what_was_said_of_it(st: Reading, code: Seq<char>, name: Seq<char>)
    ensures
        ({
            let p = declared(st, code, name);
            &&& p.name == name
            &&& p.default == literal_part(code)
            &&& p.boolean <==> st.pending.boolean || value_part(code) == Some("true"@)
                || value_part(code) == Some("false"@)
            &&& st.pending.desc is Some ==> p.desc == st.pending.desc
            &&& st.pending.desc is None && st.notes.len() == 0 ==> p.desc is None
            &&& st.pending.desc is None && st.notes.len() > 0 ==> p.desc == Some(
                join(st.notes, seq![' ']),
            )
            &&& p.header == st.pending.header && p.range == st.pending.range
            &&& p.slider == st.pending.slider && p.step == st.pending.step
            &&& p.options == st.pending.options && p.color == st.pending.color
            &&& p.multiline == st.pending.multiline && p.units == st.pending.units
            &&& p.hidden == st.pending.hidden
        }),
{
}

/// Every brace that opens is one deeper and every brace that closes is one less deep, as long
/// as any is open; what closes too often closes nothing.
pub proof fn law_braces_are_counted(depth: nat, code: Seq<char>)
    ensures
        depth + count_of(code, '{') >= count_of(code, '}') ==> depth_after(depth, code) == depth
            + count_of(code, '{') - count_of(code, '}'),
        depth + count_of(code, '{') <= count_of(code, '}') ==> depth_after(depth, code) == 0,
        !code.contains('{') && !code.contains('}') ==> depth_after(depth, code) == depth,
{
    if !code.contains('{') && !code.contains('}') {
        lemma_none_counted(code, '{');
        lemma_none_counted(code, '}');
    }
}

/// What is not there is counted zero times.
proof fn lemma_none_counted(s: Seq<char>, c: char)
    requires
        !s.contains(c),
    ensures
        count_of(s, c) == 0,
    decreases s.len(),
{
    if s.len() > 0 {
        assert(s[s.len() - 1] != c);
        assert forall|i: int| 0 <= i < s.drop_last().len() implies s.drop_last()[i] != c by {
            assert(s[i] != c);
        }
        lemma_none_counted(s.drop_last(), c);
    }
}

/// Once the table is open, what was noted before it is what the script says of itself, and
/// nothing that was said before it belongs to a param in it.
pub proof fn law_the_table_opens_afresh(st: Reading, code: Seq<char>)
    requires
        !st.inside,
    ensures
        opens_defaults(code) ==> read_code(st, code).about == st.about + st.notes && read_code(
            st,
            code,
        ).pending == blank_param() && read_code(st, code).notes.len() == 0,
        !opens_defaults(code) ==> read_code(st, code).about == st.about && read_code(st, code).pending
            == st.pending && !read_code(st, code).inside,
        opens_defaults(code) && count_of(code, '{') > count_of(code, '}') ==> read_code(
            st,
            code,
        ).inside && read_code(st, code).depth == count_of(code, '{') - count_of(code, '}'),
        code.len() > 0 ==> read_code(st, code).notes.len() == 0,
        read_code(st, code).buttons == st.buttons,
{
}

/// A literal is never blank, never the start of a table and never a call; any other value is
/// kept as it is written.
pub proof fn law_a_literal_is_a_plain_value(code: Seq<char>)
    ensures
        literal_part(code) matches Some(v) ==> v.len() > 0 && v[0] != '{' && !v.contains('(')
            && value_part(code) == Some(v),
        literal_part(code) is None ==> (value_part(code) matches Some(v) ==> v.len() == 0 || v[0]
            == '{' || v.contains('(')),
{
}

/// Commas are taken off the end, all of them, and nothing else.
pub proof fn law_no_comma_is_left_at_the_end(s: Seq<char>)
    ensures
        without_commas(s).len() > 0 ==> without_commas(s).last() != ',',
        without_commas(s).is_prefix_of(s),
        forall|i: int| without_commas(s).len() <= i < s.len() ==> #[trigger] s[i] == ',',
        without_commas(s.push(',')) == without_commas(s),
    decreases s.len(),
{
    assert(s.push(',').drop_last() =~= s);
    if s.len() > 0 && s.last() == ',' {
        law_no_comma_is_left_at_the_end(s.drop_last());
        assert forall|i: int| without_commas(s).len() <= i < s.len() implies #[trigger] s[i]
            == ',' by {
            if i < s.len() - 1 {
                assert(s.drop_last()[i] == s[i]);
            }
        }
    }
}

/// A line that gives a name a value is read as just that: what stands before the first equals
/// sign is the name, and the value is what stands behind it.
pub proof fn law_a_line_gives_a_name_its_value(name: Seq<char>, value: Seq<char>)
    requires
        is_name(name),
        value.len() > 0 ==> value[0] != '=',
    ensures
        key_part(name + seq!['='] + value) == Some(name),
        value_part(name + seq!['='] + value) == Some(trim(without_commas(trim(value)))),
{
    let code = name + seq!['='] + value;
    let n = name.len() as int;
    lemma_index_of(code, '=');
    let k = index_of(code, '=');
    assert(code[n] == '=');
    assert(code.contains('='));
    assert(k == n) by {
        if k < n {
            assert(code[k] == name[k]);
            assert(is_name_char(name[k]));
        }
    }
    assert(code.take(n) =~= name);
    assert(code.skip(n + 1) =~= value);
    if value.len() > 0 {
        assert(code[n + 1] == value[0]);
    }
    let cut = law_only_white_is_trimmed(name);
    assert(cut.0 == 0) by {
        if cut.0 > 0 {
            assert(is_white(name[0]));
            law_what_is_seen_is_not_white(name[0]);
        }
    }
    assert(cut.1 == name.len()) by {
        if cut.1 < name.len() {
            let last = name[name.len() - 1];
            assert(is_white(last));
            assert(is_name_char(last));
            law_what_is_seen_is_not_white(last);
        }
    }
    assert(trim(name) =~= name);
}

/// A comment begins with two dashes, and code without a quote holds no earlier ones.
pub proof fn law_a_comment_begins_with_its_dashes(s: Seq<char>, i: int, quote: Option<char>)
    requires
        0 <= i,
    ensures
        comment_at(s, i, quote) <= s.len(),
        comment_at(s, i, quote) < s.len() ==> i <= comment_at(s, i, quote) < s.len() - 1
            && s[comment_at(s, i, quote)] == '-' && s[comment_at(s, i, quote) + 1] == '-',
        quote is None && (forall|j: int|
            i <= j < comment_at(s, i, quote) ==> #[trigger] s[j] != '"' && s[j] != '\'') ==> forall|
            j: int|
            i <= j < comment_at(s, i, quote) && j + 1 < s.len() ==> !(#[trigger] s[j] == '-' && s[j
                + 1] == '-'),
    decreases s.len() + 1 - i,
{
    if i < s.len() {
        match quote {
            Some(q) => {
                if s[i] == '\\' {
                    law_a_comment_begins_with_its_dashes(s, i + 2, quote);
                } else if s[i] == q {
                    law_a_comment_begins_with_its_dashes(s, i + 1, None);
                } else {
                    law_a_comment_begins_with_its_dashes(s, i + 1, quote);
                }
            },
            None => {
                if s[i] == '"' || s[i] == '\'' {
                    law_a_comment_begins_with_its_dashes(s, i + 1, Some(s[i]));
                } else if !(s[i] == '-' && i + 1 < s.len() && s[i + 1] == '-') {
                    law_a_comment_begins_with_its_dashes(s, i + 1, None);
                }
            },
        }
    }
}

/// A source is its first line, the break that ends it, and the rest; a line holds no break.
pub proof fn law_a_source_is_its_lines(s: Seq<char>)
    ensures
        !first_line(s).contains('\n'),
        !s.contains('\n') ==> first_line(s) == s && after_line(s).len() == 0,
        s.contains('\n') ==> s == first_line(s) + seq!['\n'] + after_line(s) || s == first_line(s)
            + seq!['\r', '\n'] + after_line(s),
        s.contains('\n') && first_line(s).len() > 0 && first_line(s).last() == '\r' ==> s
            == first_line(s) + seq!['\r', '\n'] + after_line(s),
{
    lemma_index_of(s, '\n');
    let n = index_of(s, '\n');
    if n < s.len() {
        if n > 0 && s[n - 1] == '\r' {
            assert(s =~= first_line(s) + seq!['\r', '\n'] + after_line(s));
        } else {
            assert(s =~= first_line(s) + seq!['\n'] + after_line(s));
            if n > 0 {
                assert(first_line(s).last() == s[n - 1]);
            }
        }
    } else {
        assert(s.take(n) =~= s);
    }
}

/// The numbers of a text are the words of it that write a number: each of them is one, and
/// none is left out.
pub proof fn law_numbers_are_words(s: Seq<char>, w: Seq<char>)
    ensures
        numbers_in(s).contains(w) <==> words(s).contains(w) && is_number_word(w),
        numbers_in(s).len() <= words(s).len(),
{
    let p = |w: Seq<char>| is_number_word(w);
    lemma_filter_holds(words(s), p, w);
}

/// An entry of a dropdown is never blank, and white space neither begins nor ends it.
pub proof fn law_entries_are_tidy(s: Seq<char>, e: Seq<char>)
    requires
        entries_in(s).contains(e),
    ensures
        e.len() > 0,
        trim(e) == e,
        !e.contains('|'),
        !e.contains(','),
{
    let pieces = split_either(s, '|', ',');
    let bare = pieces.map_values(|p: Seq<char>| trim(p));
    let p = |p: Seq<char>| p.len() > 0;
    lemma_filter_holds(bare, p, e);
    let k = choose|k: int| 0 <= k < bare.len() && bare[k] == e;
    law_pieces_hold_no_separator(s, '|', ',');
    let cut = law_only_white_is_trimmed(pieces[k]);
    assert(e == trim(pieces[k]));
    assert forall|i: int| 0 <= i < e.len() implies e[i] != '|' && e[i] != ',' by {
        assert(pieces[k][cut.0 + i] == e[i]);
        assert(!pieces[k].contains('|'));
    }
}

// ---- the cache -------------------------------------------------------------

/// The file that holds the script of kind `kind`.
pub open spec fn script_path_of(root: Seq<char>, kind: Seq<char>) -> Seq<char> {
    path_below(path_below(root, "scripts"@), kind + ".lua"@)
}

/// The file that holds the script of kind `kind`.
pub fn script_path(project_root: &str, kind: &str) -> (out: String)
    ensures
        out@ == script_path_of(project_root@, kind@),
{
    let dir: String = join_path(project_root, "scripts");
    let file: String = joined(kind, ".lua");
    join_path(dir.as_str(), file.as_str())
}

/// One script that has been read: the time at which its file was last changed,
/// and what it says. A file of which no time is known has the stamp `None`,
/// which is a stamp like any other.
pub struct ReadScript {
    pub stamp: Option<i128>,
    pub meta: ScriptMeta,
}

/// The scripts that have been read, each under its path.
pub struct ScriptMetaCache {
    table: Table<ReadScript>,
}

impl View for ScriptMetaCache {
    type V = Map<Seq<char>, (Option<i128>, MetaModel)>;

    closed spec fn view(&self) -> Map<Seq<char>, (Option<i128>, MetaModel)> {
        self.table@.map_values(|r: ReadScript| (r.stamp, r.meta@))
    }
}

impl ScriptMetaCache {
    /// No path is there twice.
    pub closed spec fn wf(&self) -> bool {
        self.table.wf()
    }

    /// A cache that holds nothing.
    pub fn new() -> (out: Self)
        ensures
            out.wf(),
            out@ == Map::<Seq<char>, (Option<i128>, MetaModel)>::empty(),
    {
        let out: ScriptMetaCache = ScriptMetaCache { table: Table::new() };
        assert(out@ =~= Map::<Seq<char>, (Option<i128>, MetaModel)>::empty());
        out
    }

    /// Must the script at `path` be read, now that its file has the stamp
    /// `stamp`? It must unless it was read with that very stamp.
    pub fn is_stale(&self, path: &str, stamp: Option<i128>) -> (out: bool)
        requires
            self.wf(),
        ensures
            out == !(self@.contains_key(path@) && self@[path@].0 == stamp),
    {
        match self.table.get(path) {
            Some(r) => r.stamp != stamp,
            None => true,
        }
    }

    /// Keeps what the source `src` of the script at `path` says. A script that
    /// could not be read has an empty source.
    pub fn store(&mut self, path: &str, stamp: Option<i128>, src: &str)
        requires
            old(self).wf(),
        ensures
            final(self).wf(),
            final(self)@ == old(self)@.insert(path@, (stamp, meta_in(src@))),
    {
        self.table.put(path, ReadScript { stamp, meta: parse(src) });
        assert(self@ =~= old(self)@.insert(path@, (stamp, meta_in(src@))));
    }

    /// What the script at `path` says, where it has been read.
    pub fn get(&self, path: &str) -> (out: Option<&ScriptMeta>)
        requires
            self.wf(),
        ensures
            match out {
                Some(m) => self@.contains_key(path@) && m@ == self@[path@].1,
                None => !self@.contains_key(path@),
            },
    {
        match self.table.get(path) {
            Some(r) => Some(&r.meta),
            None => None,
        }
    }
}

/// A script that has just been read is not read again until its stamp changes,
/// and it leaves every other script as it was.
pub proof fn law_cache_keeps_what_it_read(
    before: Map<Seq<char>, (Option<i128>, MetaModel)>,
    path: Seq<char>,
    stamp: Option<i128>,
    src: Seq<char>,
    other: Seq<char>,
)
    requires
        other != path,
    ensures
        ({
            let after = before.insert(path, (stamp, meta_in(src)));
            &&& after.contains_key(path) && after[path] == (stamp, meta_in(src))
            &&& after.contains_key(other) == before.contains_key(other)
            &&& before.contains_key(other) ==> after[other] == before[other]
        }),
{
}

/// Scripts are kept in a directory of their own, each in a file that is called after it.
pub proof fn law_every_script_has_its_own_file(root: Seq<char>, a: Seq<char>, b: Seq<char>)
    requires
        a.len() > 0 && a[0] != '/',
        b.len() > 0 && b[0] != '/',
    ensures
        script_path_of(root, a) == script_path_of(root, b) ==> a == b,
        (a + ".lua"@).is_suffix_of(script_path_of(root, a)),
        ("scripts/"@ + a + ".lua"@).is_suffix_of(script_path_of(root, a)),
{
    reveal_strlit("scripts");
    reveal_strlit("scripts/");
    reveal_strlit(".lua");
    let dir = path_below(root, "scripts"@);
    assert("scripts"@[0] == 's' && "scripts"@.last() == 's');
    assert(dir.last() == 's');
    let x = script_path_of(root, a);
    let y = script_path_of(root, b);
    let k = a + ".lua"@;
    assert((a + ".lua"@)[0] == a[0]);
    assert((b + ".lua"@)[0] == b[0]);
    assert(x =~= dir + seq!['/'] + k);
    assert(y =~= dir + seq!['/'] + (b + ".lua"@));
    if x == y {
        let n = dir.len() as int + 1;
        assert(x.skip(n) =~= k);
        assert(y.skip(n) =~= b + ".lua"@);
        assert(a =~= k.take(k.len() - 4));
        assert(b =~= (b + ".lua"@).take(k.len() - 4));
    }
    assert(x.subrange(x.len() - k.len(), x.len() as int) =~= k);
    let s = "scripts/"@ + a + ".lua"@;
    assert("scripts/"@ =~= "scripts"@ + seq!['/']);
    assert(dir.subrange(dir.len() - 7, dir.len() as int) =~= "scripts"@);
    assert(x.subrange(x.len() - s.len(), x.len() as int) =~= s);
}

/// A script is known exactly where it was read, by what was read.
pub proof fn law_what_was_read_is_known(c: &ScriptMetaCache, path: &str, out: Option<&ScriptMeta>)
    requires
        c.wf(),
        call_ensures(ScriptMetaCache::get, (c, path), out),
    ensures
        out is Some <==> c@.contains_key(path@),
        out matches Some(m) ==> m@ == c@[path@].1,
{
}

/// What was stored for a script is what is known of it, until it is stored again; nothing else
/// that is known changes.
pub proof fn law_what_is_stored_is_known(
    c: &mut ScriptMetaCache,
    path: &str,
    stamp: Option<i128>,
    src: &str,
    known: Option<&ScriptMeta>,
    other: Seq<char>,
)
    requires
        old(c).wf(),
        call_ensures(ScriptMetaCache::store, (c, path, stamp, src), ()),
        call_ensures(ScriptMetaCache::get, (final(c), path), known),
    ensures
        known is Some && known->Some_0@ == meta_in(src@),
        final(c)@[path@].0 == stamp,
        other != path@ ==> final(c)@.contains_key(other) == old(c)@.contains_key(other) && (old(
            c,
        )@.contains_key(other) ==> final(c)@[other] == old(c)@[other]),
{
}

/// Two equals signs in a row compare, whatever stands round them: nothing is declared.
pub proof fn law_two_equals_signs_compare(name: Seq<char>, rest: Seq<char>)
    requires
        !name.contains('='),
    ensures
        key_part(name + seq!['=', '='] + rest) is None,
{
    let code = name + seq!['=', '='] + rest;
    let n = name.len() as int;
    lemma_index_of(code, '=');
    let k = index_of(code, '=');
    assert(code[n] == '=' && code[n + 1] == '=');
    assert(code.contains('='));
    assert(k == n) by {
        if k < n {
            assert(code[k] == name[k]);
            assert(name.contains(name[k]));
        }
    }
}

/// A name that is given one of the two words for on and off is a switch, and a name alone is none.
pub proof fn law_a_switch_is_one_of_two_words(name: Seq<char>)
    requires
        is_name(name),
    ensures
        assigns_bool(name + seq!['='] + "true"@),
        assigns_bool(name + seq!['='] + "false"@),
        !assigns_bool(name),
{
    reveal_strlit("true");
    reveal_strlit("false");
    assert("true"@[0] == 't' && "false"@[0] == 'f');
    law_a_line_gives_a_name_its_value(name, "true"@);
    law_a_line_gives_a_name_its_value(name, "false"@);
    lemma_plain_word("true"@);
    lemma_plain_word("false"@);
    lemma_index_of(name, '=');
    let k = index_of(name, '=');
    if k < name.len() {
        assert(is_name_char(name[k]));
    }
}

/// A word that ends neither in white space nor in a comma, and does not begin in white space, is
/// its own value.
proof fn lemma_plain_word(w: Seq<char>)
    requires
        w.len() > 0,
        !is_white(w[0]),
        !is_white(w[w.len() - 1]),
        w[w.len() - 1] != ',',
    ensures
        trim(without_commas(trim(w))) == w,
{
    let cut = law_only_white_is_trimmed(w);
    assert(cut.0 == 0) by {
        if cut.0 > 0 {
            assert(is_white(w[0]));
        }
    }
    assert(cut.1 == w.len()) by {
        if cut.1 < w.len() {
            assert(is_white(w[w.len() - 1]));
        }
    }
    assert(trim(w) =~= w);
    assert(w.last() == w[w.len() - 1]);
}

} // verus!
