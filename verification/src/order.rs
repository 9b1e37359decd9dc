//! Putting things in order: which place of a list comes first, second and so on.
//!
//! A list is put in order by its places, so what it holds is not moved about.
//! Two things that rank the same keep the order in which they stand.

use crate::text::{before, chars_of, text_before};
use vstd::prelude::*;

verus! {

/// Things that rank before and after one another. Two different things may rank
/// the same.
pub trait Ranked: Sized {
    /// Does `self` rank before `other`?
    spec fn ranks_before(&self, other: &Self) -> bool;

    /// Ranking before is strict, and not ranking after goes on from one to the
    /// next.
    proof fn ranking(a: &Self, b: &Self, c: &Self)
        ensures
            !(a.ranks_before(b) && b.ranks_before(a)),
            !b.ranks_before(a) && !c.ranks_before(b) ==> !c.ranks_before(a),
    ;

    /// Does `self` rank before `other`?
    fn is_before(&self, other: &Self) -> (out: bool)
        ensures
            out == self.ranks_before(other),
    ;
}

/// Four numbers, of which an earlier one matters more than a later one.
#[derive(Clone, Copy, Debug, PartialEq, Eq)]
pub struct Rank {
    pub first: i64,
    pub second: i64,
    pub third: i64,
    pub fourth: i64,
}

impl Ranked for Rank {
    open spec fn ranks_before(&self, other: &Self) -> bool {
        ||| self.first < other.first
        ||| self.first == other.first && self.second < other.second
        ||| self.first == other.first && self.second == other.second && self.third < other.third
        ||| self.first == other.first && self.second == other.second && self.third == other.third
            && self.fourth < other.fourth
    }

    proof fn ranking(a: &Self, b: &Self, c: &Self) {
    }

    fn is_before(&self, other: &Self) -> (out: bool) {
        if self.first != other.first {
            self.first < other.first
        } else if self.second != other.second {
            self.second < other.second
        } else if self.third != other.third {
            self.third < other.third
        } else {
            self.fourth < other.fourth
        }
    }
}

/// Text, in the order of its characters.
pub struct Name {
    pub text: String,
}

/// `text_before` is a strict order.
pub proof fn lemma_text_order(a: Seq<char>, b: Seq<char>, c: Seq<char>)
    ensures
        !(text_before(a, b) && text_before(b, a)),
        !text_before(b, a) && !text_before(c, b) ==> !text_before(c, a),
        !text_before(a, b) && !text_before(b, a) ==> a == b,
    decreases a.len() + b.len() + c.len(),
{
    if a.len() > 0 && b.len() > 0 {
        if c.len() > 0 {
            lemma_text_order(a.skip(1), b.skip(1), c.skip(1));
        } else {
            lemma_text_order(a.skip(1), b.skip(1), c);
        }
        if a[0] == b[0] && a.skip(1) == b.skip(1) {
            assert(a =~= seq![a[0]] + a.skip(1));
            assert(b =~= seq![b[0]] + b.skip(1));
        }
    } else if a.len() == 0 && b.len() == 0 {
        assert(a =~= b);
    }
}

impl Ranked for Name {
    open spec fn ranks_before(&self, other: &Self) -> bool {
        text_before(self.text@, other.text@)
    }

    proof fn ranking(a: &Self, b: &Self, c: &Self) {
        lemma_text_order(a.text@, b.text@, c.text@);
    }

    fn is_before(&self, other: &Self) -> (out: bool) {
        before(chars_of(self.text.as_str()).as_slice(), chars_of(other.text.as_str()).as_slice())
    }
}

/// Does place `p` of a list come before place `q`, once it is in order?
pub open spec fn comes_first<T: Ranked>(list: Seq<T>, p: int, q: int) -> bool {
    list[p].ranks_before(&list[q]) || (!list[q].ranks_before(&list[p]) && p < q)
}

/// Are these the first `n` places of a list, each of them once?
pub open spec fn are_places(places: Seq<usize>, n: nat) -> bool {
    &&& places.len() == n
    &&& forall|i: int| 0 <= i < places.len() ==> 0 <= #[trigger] places[i] < n
    &&& forall|i: int, j: int|
        0 <= i < j < places.len() ==> #[trigger] places[i] != #[trigger] places[j]
}

/// Do these places of a list stand in its order?
pub open spec fn in_order<T: Ranked>(list: Seq<T>, places: Seq<usize>) -> bool {
    forall|i: int, j: int|
        0 <= i < j < places.len() ==> comes_first(
            list,
            (#[trigger] places[i]) as int,
            (#[trigger] places[j]) as int,
        )
}

/// All places of `list`, in its order.
pub fn sorted_places<T: Ranked>(list: &Vec<T>) -> (out: Vec<usize>)
    ensures
        are_places(out@, list@.len()),
        in_order(list@, out@),
{
    let mut out: Vec<usize> = Vec::new();
    let mut k: usize = 0;
    while k < list.len()
        invariant
            k <= list.len(),
            are_places(out@, k as nat),
            in_order(list@, out@),
        decreases list.len() - k,
    {
        let mut j: usize = out.len();
        while j > 0 && list[k].is_before(&list[out[j - 1]])
            invariant
                k < list.len(),
                j <= out.len(),
                are_places(out@, k as nat),
                forall|i: int|
                    j <= i < out@.len() ==> list@[k as int].ranks_before(
                        &list@[(#[trigger] out@[i]) as int],
                    ),
            decreases j,
        {
            j -= 1;
        }
        let ghost was = out@;
        out.insert(j, k);
        proof {
            assert forall|i: int| 0 <= i < j implies !list@[k as int].ranks_before(
                &list@[(#[trigger] was[i]) as int],
            ) by {
                if i < j - 1 {
                    assert(comes_first(list@, was[i] as int, was[j - 1] as int));
                    T::ranking(
                        &list@[was[i] as int],
                        &list@[was[j - 1] as int],
                        &list@[k as int],
                    );
                    T::ranking(
                        &list@[was[i] as int],
                        &list@[was[j - 1] as int],
                        &list@[was[i] as int],
                    );
                }
            }
            assert forall|a: int, b: int| 0 <= a < b < out@.len() implies comes_first(
                list@,
                (#[trigger] out@[a]) as int,
                (#[trigger] out@[b]) as int,
            ) by {
                let pa = if a < j {
                    a
                } else {
                    a - 1
                };
                let pb = if b < j {
                    b
                } else {
                    b - 1
                };
                if a == j {
                    assert(out@[b] == was[pb]);
                } else if b == j {
                    assert(out@[a] == was[pa]);
                } else {
                    assert(out@[a] == was[pa] && out@[b] == was[pb]);
                    assert(comes_first(list@, was[pa] as int, was[pb] as int));
                }
            }
            assert(are_places(out@, (k + 1) as nat));
        }
        k += 1;
    }
    out
}

/// There is only one way to put a list in order.
pub proof fn law_order_is_unique<T: Ranked>(list: Seq<T>, a: Seq<usize>, b: Seq<usize>)
    requires
        are_places(a, list.len()),
        are_places(b, list.len()),
        in_order(list, a),
        in_order(list, b),
    ensures
        a == b,
{
    assert forall|i: int| 0 <= i < a.len() implies a[i] == b[i] by {
        lemma_same_at(list, a, b, i);
    }
    assert(a =~= b);
}

/// Every place of a list is among all of its places.
pub proof fn lemma_place_is_there(places: Seq<usize>, n: nat, p: int)
    requires
        are_places(places, n),
        0 <= p < n,
    ensures
        exists|i: int| #![trigger places[i]] 0 <= i < n && places[i] == p,
{
    let all = Set::new(|q: int| 0 <= q < n);
    let mine = places.map_values(|q: usize| q as int);
    assert forall|i: int, j: int| 0 <= i < mine.len() && 0 <= j < mine.len() && i != j implies mine[i]
        != mine[j] by {
        if i < j {
            assert(places[i] != places[j]);
        } else {
            assert(places[j] != places[i]);
        }
    }
    mine.unique_seq_to_set();
    vstd::set_lib::lemma_int_range(0, n as int);
    assert(all =~= vstd::set_lib::set_int_range(0, n as int));
    assert(mine.to_set().subset_of(all)) by {
        assert forall|q: int| mine.to_set().contains(q) implies all.contains(q) by {
            let i = choose|i: int| 0 <= i < mine.len() && mine[i] == q;
            assert(places[i] < n);
        }
    }
    vstd::set_lib::lemma_subset_equality(mine.to_set(), all);
    assert(mine.to_set().contains(p));
    let i = choose|i: int| 0 <= i < mine.len() && mine[i] == p;
    assert(places[i] == p);
}

/// Two orders of one list agree at place `i` where they agree before it.
proof fn lemma_same_at<T: Ranked>(list: Seq<T>, a: Seq<usize>, b: Seq<usize>, i: int)
    requires
        are_places(a, list.len()),
        are_places(b, list.len()),
        in_order(list, a),
        in_order(list, b),
        0 <= i < a.len(),
    ensures
        a[i] == b[i],
    decreases i,
{
    assert forall|j: int| 0 <= j < i implies a[j] == b[j] by {
        lemma_same_at(list, a, b, j);
    }
    lemma_place_is_there(b, list.len(), a[i] as int);
    lemma_place_is_there(a, list.len(), b[i] as int);
    let jb = choose|j: int| #![trigger b[j]] 0 <= j < list.len() && b[j] == a[i];
    let ja = choose|j: int| #![trigger a[j]] 0 <= j < list.len() && a[j] == b[i];
    if jb < i {
        assert(a[jb] == b[jb]);
        assert(a[jb] != a[i]);
    }
    if ja < i {
        assert(a[ja] == b[ja]);
        assert(b[ja] != b[i]);
    }
    if jb > i && ja > i {
        assert(comes_first(list, b[i] as int, b[jb] as int));
        assert(comes_first(list, a[i] as int, a[ja] as int));
        T::ranking(&list[a[i] as int], &list[b[i] as int], &list[a[i] as int]);
    }
}

/// Of four numbers the first that differs decides, and the smaller of the two comes first.
pub proof fn law_the_first_number_that_differs_decides(a: Rank, b: Rank)
    ensures
        a.first < b.first ==> a.ranks_before(&b),
        a.first == b.first && a.second < b.second ==> a.ranks_before(&b),
        a.first == b.first && a.second == b.second && a.third < b.third ==> a.ranks_before(&b),
        a.first == b.first && a.second == b.second && a.third == b.third && a.fourth < b.fourth
            ==> a.ranks_before(&b),
        a != b ==> a.ranks_before(&b) != b.ranks_before(&a),
        a.ranks_before(&b) ==> a.first <= b.first,
{
}

/// What ranks before stands before, and what ranks the same stands as it did.
pub proof fn law_equals_keep_their_order<T: Ranked>(list: Seq<T>, places: Seq<usize>, i: int, j: int)
    requires
        in_order(list, places),
        0 <= i < j < places.len(),
    ensures
        !list[places[j] as int].ranks_before(&list[places[i] as int]),
        !list[places[i] as int].ranks_before(&list[places[j] as int]) ==> places[i] < places[j],
{
    assert(comes_first(list, places[i] as int, places[j] as int));
    T::ranking(
        &list[places[i] as int],
        &list[places[j] as int],
        &list[places[j] as int],
    );
}

} // verus!
