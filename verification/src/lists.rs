//! Lists of numbers that stand for things.

use vstd::prelude::*;

verus! {

/// The first place of `e` in `list`, or its length.
pub open spec fn first_place(list: Seq<u64>, e: u64) -> int
    decreases list.len(),
{
    if list.len() == 0 {
        0
    } else if list[0] == e {
        0
    } else {
        1 + first_place(list.skip(1), e)
    }
}

/// What `first_place` gives: no earlier place holds `e`.
pub proof fn lemma_first_place(list: Seq<u64>, e: u64)
    ensures
        0 <= first_place(list, e) <= list.len(),
        first_place(list, e) < list.len() ==> list[first_place(list, e)] == e,
        first_place(list, e) < list.len() <==> list.contains(e),
        forall|j: int| 0 <= j < first_place(list, e) ==> list[j] != e,
    decreases list.len(),
{
    if list.len() > 0 && list[0] != e {
        lemma_first_place(list.skip(1), e);
        assert forall|j: int| 0 <= j < first_place(list, e) implies list[j] != e by {
            if j > 0 {
                assert(list.skip(1)[j - 1] == list[j]);
            }
        }
        if list.contains(e) {
            let j = choose|j: int| 0 <= j < list.len() && list[j] == e;
            assert(list.skip(1)[j - 1] == e);
        }
        if first_place(list, e) < list.len() {
            assert(list.skip(1)[first_place(list, e) - 1] == list[first_place(list, e)]);
        }
    }
}

/// The first place of `e` in `list`, or its length.
pub fn place_of(list: &Vec<u64>, e: u64) -> (out: usize)
    ensures
        out == first_place(list@, e),
        out <= list@.len(),
        out < list@.len() <==> list@.contains(e),
        out < list@.len() ==> list@[out as int] == e,
{
    let mut i: usize = 0;
    assert(list@.skip(0) =~= list@);
    while i < list.len() && list[i] != e
        invariant
            i <= list.len(),
            first_place(list@, e) == i + first_place(list@.skip(i as int), e),
        decreases list.len() - i,
    {
        assert(list@.skip(i as int).skip(1) =~= list@.skip(i + 1));
        i += 1;
    }
    proof {
        lemma_first_place(list@, e);
    }
    i
}

/// Is `e` among `list`?
pub fn is_among(list: &Vec<u64>, e: u64) -> (out: bool)
    ensures
        out == list@.contains(e),
{
    place_of(list, e) < list.len()
}

/// The same list again.
pub fn copied(list: &Vec<u64>) -> (out: Vec<u64>)
    ensures
        out@ == list@,
{
    let mut out: Vec<u64> = Vec::new();
    let mut i: usize = 0;
    while i < list.len()
        invariant
            i <= list.len(),
            out@ == list@.take(i as int),
        decreases list.len() - i,
    {
        out.push(list[i]);
        i += 1;
    }
    assert(list@.take(i as int) =~= list@);
    out
}

/// One more step of a filter.
pub proof fn lemma_filter_step<T>(s: Seq<T>, j: int, p: spec_fn(T) -> bool)
    requires
        0 <= j < s.len(),
    ensures
        s.take(j + 1).filter(p) == if p(s[j]) {
            s.take(j).filter(p).push(s[j])
        } else {
            s.take(j).filter(p)
        },
{
    reveal(Seq::filter);
    assert(s.take(j + 1).drop_last() =~= s.take(j));
}

/// A filter that has seen nothing has kept nothing.
pub proof fn lemma_filter_none<T>(s: Seq<T>, p: spec_fn(T) -> bool)
    ensures
        s.take(0).filter(p) == Seq::<T>::empty(),
        s.take(s.len() as int).filter(p) == s.filter(p),
{
    reveal(Seq::filter);
    assert(s.take(0) =~= Seq::<T>::empty());
    assert(s.take(s.len() as int) =~= s);
}

/// A filtered list holds what the list holds and the filter keeps, and nothing else.
pub proof fn lemma_filter_holds<A>(s: Seq<A>, keep: spec_fn(A) -> bool, x: A)
    ensures
        s.filter(keep).contains(x) <==> s.contains(x) && keep(x),
        s.filter(keep).len() <= s.len(),
{
    broadcast use vstd::seq_lib::group_filter_ensures;

    let kept = s.filter(keep);
    if kept.contains(x) {
        s.lemma_filter_contains_rev(keep, x);
        let i = choose|i: int| 0 <= i < kept.len() && kept[i] == x;
        s.lemma_filter_pred(keep, i);
    }
    if s.contains(x) && keep(x) {
        let i = choose|i: int| 0 <= i < s.len() && s[i] == x;
        s.lemma_filter_contains(keep, i);
    }
}

/// What a filter keeps begins with the first that it keeps.
pub proof fn lemma_first_kept<A>(s: Seq<A>, keep: spec_fn(A) -> bool)
    requires
        s.filter(keep).len() > 0,
    ensures
        exists|i: int|
            0 <= i < s.len() && #[trigger] s[i] == s.filter(keep)[0] && forall|j: int|
                0 <= j < i ==> !keep(#[trigger] s[j]),
    decreases s.len(),
{
    reveal(Seq::filter);
    let less = s.drop_last();
    if less.filter(keep).len() > 0 {
        lemma_first_kept(less, keep);
        let i = choose|i: int|
            0 <= i < less.len() && #[trigger] less[i] == less.filter(keep)[0] && forall|j: int|
                0 <= j < i ==> !keep(#[trigger] less[j]);
        assert(s[i] == less[i]);
        assert forall|j: int| 0 <= j < i implies !keep(#[trigger] s[j]) by {
            assert(less[j] == s[j]);
        }
    } else {
        let i = s.len() - 1;
        assert(s[i] == s.filter(keep)[0]);
        assert forall|j: int| 0 <= j < i implies !keep(#[trigger] s[j]) by {
            assert(less[j] == s[j]);
            lemma_filter_holds(less, keep, s[j]);
            assert(less.contains(s[j]));
        }
    }
}

} // verus!
