//! Paths as text, with `/` between their parts.

use crate::lists::lemma_filter_holds;
use crate::text::{
    append_chars, chars_of, find_either, index_of_either, law_pieces_hold_no_separator,
    lemma_index_of_either, split_either, text_of,
};
use vstd::prelude::*;
use vstd::slice::slice_subrange;

verus! {

/// The path of `name` below `root`. A `name` that begins with `/` is a path of
/// its own.
pub open spec fn path_below(root: Seq<char>, name: Seq<char>) -> Seq<char> {
    if root.len() == 0 || (name.len() > 0 && name[0] == '/') {
        name
    } else if root.last() == '/' {
        root + name
    } else {
        root + seq!['/'] + name
    }
}

/// The path of `name` below `root`.
pub fn join_path(root: &str, name: &str) -> (out: String)
    ensures
        out@ == path_below(root@, name@),
{
    let head: Vec<char> = chars_of(root);
    let tail: Vec<char> = chars_of(name);
    if head.len() == 0 || (tail.len() > 0 && tail[0] == '/') {
        return text_of(tail.as_slice());
    }
    let mut all: Vec<char> = head;
    if all[all.len() - 1] != '/' {
        all.push('/');
    }
    append_chars(&mut all, tail.as_slice());
    assert(all@ =~= path_below(root@, name@));
    text_of(all.as_slice())
}

/// Is `part` the name of something, rather than a doubled `/` or a `.` that
/// stands for the directory itself?
pub open spec fn is_part(part: Seq<char>) -> bool {
    part.len() > 0 && part != seq!['.']
}

/// The parts of a path.
pub open spec fn parts(path: Seq<char>) -> Seq<Seq<char>> {
    split_either(path, '/', '/').filter(|p: Seq<char>| is_part(p))
}

/// The last part of a path, where it names something: `..` does not.
pub open spec fn name_in(path: Seq<char>) -> Option<Seq<char>> {
    let ps = parts(path);
    if ps.len() > 0 && ps.last() != seq!['.', '.'] {
        Some(ps.last())
    } else {
        None
    }
}

/// The place of the last point of a name, or the length of the name where it has
/// none.
pub open spec fn last_point(name: Seq<char>) -> int
    decreases name.len(),
{
    if name.len() == 0 {
        0
    } else if name.last() == '.' {
        name.len() - 1
    } else if last_point(name.drop_last()) == name.len() - 1 {
        name.len() as int
    } else {
        last_point(name.drop_last())
    }
}

/// A name without its extension. A point at the front begins no extension.
pub open spec fn stem_of_name(name: Seq<char>) -> Seq<char> {
    let n = last_point(name);
    if n == 0 || n == name.len() {
        name
    } else {
        name.take(n)
    }
}

/// The extension of a name, without its point.
pub open spec fn extension_of_name(name: Seq<char>) -> Option<Seq<char>> {
    let n = last_point(name);
    if n == 0 || n == name.len() {
        None
    } else {
        Some(name.skip(n + 1))
    }
}

/// The last part of a path without its extension.
pub open spec fn stem_in(path: Seq<char>) -> Option<Seq<char>> {
    match name_in(path) {
        Some(name) => Some(stem_of_name(name)),
        None => None,
    }
}

/// The extension of the last part of a path.
pub open spec fn extension_in(path: Seq<char>) -> Option<Seq<char>> {
    match name_in(path) {
        Some(name) => extension_of_name(name),
        None => None,
    }
}

/// The text of an optional run of characters.
pub open spec fn opt_chars(s: Option<Vec<char>>) -> Option<Seq<char>> {
    match s {
        Some(v) => Some(v@),
        None => None,
    }
}

/// Splitting the filtered parts of a path after its first piece.
proof fn lemma_parts_step(rest: Seq<char>, n: int, next: Seq<char>)
    requires
        n == index_of_either(rest, '/', '/'),
        0 <= n < rest.len(),
        next == rest.skip(n + 1),
    ensures
        parts(rest) == (if is_part(rest.take(n)) {
            seq![rest.take(n)]
        } else {
            seq![]
        }) + parts(next),
{
    let f = |p: Seq<char>| is_part(p);
    let one = seq![rest.take(n)];
    Seq::filter_distributes_over_add(one, split_either(next, '/', '/'), f);
    reveal_with_fuel(Seq::filter, 2);
    assert(one.drop_last() =~= seq![]);
    assert(one.filter(f) =~= (if is_part(rest.take(n)) {
        one
    } else {
        seq![]
    }));
}

/// The last part of a path.
fn last_part(path: &[char]) -> (out: Option<Vec<char>>)
    ensures
        opt_chars(out) == if parts(path@).len() > 0 {
            Some(parts(path@).last())
        } else {
            None
        },
{
    let mut found: Option<Vec<char>> = None;
    let mut rest: &[char] = path;
    let ghost mut seen: Seq<Seq<char>> = seq![];
    loop
        invariant_except_break
            parts(path@) == seen + parts(rest@),
            opt_chars(found) == if seen.len() > 0 {
                Some(seen.last())
            } else {
                None
            },
        ensures
            opt_chars(found) == if parts(path@).len() > 0 {
                Some(parts(path@).last())
            } else {
                None
            },
        decreases rest@.len(),
    {
        let n: usize = find_either(rest, '/', '/');
        let piece: &[char] = slice_subrange(rest, 0, n);
        assert(piece@ == rest@.take(n as int));
        proof {
            reveal_with_fuel(Seq::filter, 2);
        }
        let is_dot: bool = piece.len() == 1 && piece[0] == '.';
        assert(is_dot == (piece@ == seq!['.'])) by {
            if piece@.len() == 1 && piece@[0] == '.' {
                assert(piece@ =~= seq!['.']);
            }
        }
        let named: bool = piece.len() > 0 && !is_dot;
        if named {
            let mut v: Vec<char> = Vec::new();
            append_chars(&mut v, piece);
            assert(v@ =~= piece@);
            found = Some(v);
        }
        if n >= rest.len() {
            proof {
                assert(piece@ == rest@);
                assert(seq![rest@].drop_last() =~= seq![]);
                assert(parts(rest@) =~= if named {
                    seq![rest@]
                } else {
                    seq![]
                });
            }
            break;
        }
        let next: &[char] = slice_subrange(rest, n + 1, rest.len());
        proof {
            assert(next@ == rest@.skip(n + 1));
            lemma_parts_step(rest@, n as int, next@);
            if named {
                let more = seen.push(piece@);
                assert(seen + parts(rest@) =~= more + parts(next@));
                seen = more;
            } else {
                assert(seen + parts(rest@) =~= seen + parts(next@));
            }
        }
        rest = next;
    }
    found
}

/// The last part of a path, where it names something.
fn name_of(path: &[char]) -> (out: Option<Vec<char>>)
    ensures
        opt_chars(out) == name_in(path@),
{
    match last_part(path) {
        Some(name) => {
            let up: bool = name.len() == 2 && name[0] == '.' && name[1] == '.';
            assert(up == (name@ == seq!['.', '.'])) by {
                if name@.len() == 2 && name@[0] == '.' && name@[1] == '.' {
                    assert(name@ =~= seq!['.', '.']);
                }
            }
            if up {
                None
            } else {
                Some(name)
            }
        },
        None => None,
    }
}

/// The place of the last point of a name, or the length of the name.
fn find_last_point(name: &[char]) -> (out: usize)
    ensures
        out == last_point(name@),
        out <= name@.len(),
{
    let mut at: usize = 0;
    let mut i: usize = 0;
    while i < name.len()
        invariant
            i <= name.len(),
            at <= i,
            at == last_point(name@.take(i as int)),
        decreases name.len() - i,
    {
        assert(name@.take(i + 1).drop_last() == name@.take(i as int));
        if name[i] == '.' {
            at = i;
        } else if at == i {
            at = i + 1;
        }
        i += 1;
    }
    assert(name@.take(i as int) == name@);
    at
}

/// The last part of a path, where it names something.
pub fn file_name(path: &str) -> (out: Option<String>)
    ensures
        match out {
            Some(s) => name_in(path@) == Some(s@),
            None => name_in(path@) is None,
        },
{
    match name_of(chars_of(path).as_slice()) {
        Some(name) => Some(text_of(name.as_slice())),
        None => None,
    }
}

/// The last part of a path without its extension.
pub fn file_stem(path: &str) -> (out: Option<String>)
    ensures
        match out {
            Some(s) => stem_in(path@) == Some(s@),
            None => stem_in(path@) is None,
        },
{
    match name_of(chars_of(path).as_slice()) {
        Some(name) => {
            let n: usize = find_last_point(name.as_slice());
            if n == 0 || n == name.len() {
                Some(text_of(name.as_slice()))
            } else {
                let head: &[char] = slice_subrange(name.as_slice(), 0, n);
                assert(head@ == name@.take(n as int));
                Some(text_of(head))
            }
        },
        None => None,
    }
}

/// The extension of the last part of a path, without its point.
pub fn extension(path: &str) -> (out: Option<String>)
    ensures
        match out {
            Some(s) => extension_in(path@) == Some(s@),
            None => extension_in(path@) is None,
        },
{
    match name_of(chars_of(path).as_slice()) {
        Some(name) => {
            let n: usize = find_last_point(name.as_slice());
            if n == 0 || n == name.len() {
                None
            } else {
                let tail: &[char] = slice_subrange(name.as_slice(), n + 1, name.len());
                assert(tail@ == name@.skip(n + 1));
                Some(text_of(tail))
            }
        },
        None => None,
    }
}

/// A path below nothing is the path itself, and so is one that begins at the top; below
/// anything else it stands behind it with one stroke between them, whether or not one was
/// there.
pub proof fn law_one_stroke_parts_a_path(root: Seq<char>, name: Seq<char>)
    requires
        root.len() > 0,
        root.last() != '/',
    ensures
        path_below(Seq::empty(), name) == name,
        name.len() > 0 && name[0] == '/' ==> path_below(root, name) == name,
        !(name.len() > 0 && name[0] == '/') ==> path_below(root, name) == root + seq!['/'] + name
            && path_below(root.push('/'), name) == path_below(root, name),
{
    if !(name.len() > 0 && name[0] == '/') {
        assert(root.push('/') + name =~= root + seq!['/'] + name);
    }
}

/// The last point has none behind it.
proof fn lemma_last_point(name: Seq<char>)
    ensures
        0 <= last_point(name) <= name.len(),
        last_point(name) < name.len() ==> name[last_point(name)] == '.',
        forall|i: int| last_point(name) < i < name.len() ==> #[trigger] name[i] != '.',
        last_point(name) == name.len() ==> !name.contains('.'),
    decreases name.len(),
{
    if name.len() > 0 && name.last() != '.' {
        let less = name.drop_last();
        lemma_last_point(less);
        let n = last_point(less);
        assert forall|i: int| last_point(name) < i < name.len() implies #[trigger] name[i] != '.' by {
            if i < less.len() {
                assert(less[i] == name[i]);
            }
        }
        if n == less.len() {
            assert forall|i: int| 0 <= i < name.len() implies name[i] != '.' by {
                if i < less.len() {
                    assert(less[i] == name[i]);
                    assert(!less.contains('.'));
                }
            }
        } else {
            assert(less[n] == name[n]);
        }
    }
}

/// A name is its stem, a point, and its extension, where it has one; and the extension is what
/// stands behind the last point, so it holds none. A name without a point, or with one at its
/// front alone, is all stem.
pub proof fn law_a_name_is_its_stem_and_extension(name: Seq<char>)
    ensures
        extension_of_name(name) matches Some(e) ==> name == stem_of_name(name) + seq!['.'] + e
            && !e.contains('.') && stem_of_name(name).len() > 0,
        extension_of_name(name) is None ==> stem_of_name(name) == name && forall|i: int|
            0 < i < name.len() ==> #[trigger] name[i] != '.',
{
    lemma_last_point(name);
    let n = last_point(name);
    if n != 0 && n != name.len() {
        assert(name =~= name.take(n) + seq!['.'] + name.skip(n + 1));
        let e = name.skip(n + 1);
        assert forall|i: int| 0 <= i < e.len() implies e[i] != '.' by {
            assert(e[i] == name[n + 1 + i]);
        }
    } else if n == name.len() {
        assert forall|i: int| 0 < i < name.len() implies #[trigger] name[i] != '.' by {
            assert(!name.contains('.'));
        }
    }
}

/// No part of a path is empty, holds a stroke, or stands for the directory itself; the name of
/// a path is its last part, unless that leads up.
pub proof fn law_the_name_is_the_last_part(path: Seq<char>, p: Seq<char>)
    ensures
        parts(path).contains(p) ==> p.len() > 0 && !p.contains('/') && p != seq!['.'],
        name_in(path) matches Some(n) ==> parts(path).len() > 0 && n == parts(path).last() && n
            != seq!['.', '.'] && n != seq!['.'] && n.len() > 0 && !n.contains('/'),
        name_in(path) is None ==> parts(path).len() == 0 || parts(path).last() == seq!['.', '.'],
        !path.contains('/') && is_part(path) && path != seq!['.', '.'] ==> name_in(path) == Some(
            path,
        ),
{
    let keep = |p: Seq<char>| is_part(p);
    let pieces = split_either(path, '/', '/');
    law_pieces_hold_no_separator(path, '/', '/');
    lemma_filter_holds(pieces, keep, p);
    if parts(path).contains(p) {
        let k = choose|k: int| 0 <= k < pieces.len() && pieces[k] == p;
        assert(!pieces[k].contains('/'));
    }
    if let Some(n) = name_in(path) {
        lemma_filter_holds(pieces, keep, n);
        assert(parts(path)[parts(path).len() - 1] == n);
        assert(parts(path).contains(n));
        let k = choose|k: int| 0 <= k < pieces.len() && pieces[k] == n;
        assert(!pieces[k].contains('/'));
    }
    if !path.contains('/') && is_part(path) {
        lemma_index_of_either(path, '/', '/');
        lemma_no_stroke(path);
        assert(pieces =~= seq![path]);
        reveal(Seq::filter);
        assert(pieces.drop_last() =~= seq![]);
        assert(pieces.drop_last().filter(keep) =~= seq![]);
        assert(pieces.last() == path);
        assert(parts(path) =~= seq![path]);
    }
}

/// Text without a stroke has none to be found.
proof fn lemma_no_stroke(path: Seq<char>)
    requires
        !path.contains('/'),
    ensures
        index_of_either(path, '/', '/') == path.len(),
    decreases path.len(),
{
    if path.len() > 0 {
        let rest = path.skip(1);
        assert(path[0] != '/');
        assert forall|i: int| 0 <= i < rest.len() implies rest[i] != '/' by {
            assert(rest[i] == path[i + 1]);
        }
        lemma_no_stroke(rest);
    }
}

/// The stem and the extension of a path are those of its name: together they are the name, and a
/// path without a name has neither.
pub proof fn law_a_path_has_the_extension_of_its_name(path: Seq<char>)
    ensures
        name_in(path) is None <==> stem_in(path) is None,
        name_in(path) is None ==> extension_in(path) is None,
        extension_in(path) matches Some(e) ==> name_in(path) == Some(
            stem_in(path)->Some_0 + seq!['.'] + e,
        ) && !e.contains('.') && !e.contains('/'),
        name_in(path) is Some && extension_in(path) is None ==> stem_in(path) == name_in(path),
{
    law_the_name_is_the_last_part(path, seq![]);
    if let Some(name) = name_in(path) {
        law_a_name_is_its_stem_and_extension(name);
        if let Some(e) = extension_of_name(name) {
            assert forall|i: int| 0 <= i < e.len() implies e[i] != '/' by {
                let at = stem_of_name(name).len() + 1 + i;
                assert(name[at] == e[i]);
                assert(name.contains(name[at]));
            }
        }
    }
}

} // verus!
