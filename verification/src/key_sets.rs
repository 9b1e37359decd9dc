//! Sets of numbers that stand for things, in order.

use std::collections::BTreeSet;
use vstd::prelude::*;

verus! {

broadcast use {vstd::std_specs::btree::group_btree_axioms, vstd::laws_cmp::group_laws_cmp};

/// The numbers of a set, each once and the smallest first.
pub open spec fn is_listing(list: Seq<u64>, keys: Set<u64>) -> bool {
    list.to_set() == keys && forall|i: int, j: int| 0 <= i < j < list.len() ==> list[i] < list[j]
}

/// The set of some numbers.
pub fn set_of(keys: &Vec<u64>) -> (out: BTreeSet<u64>)
    ensures
        out@ == keys@.to_set(),
{
    let mut out: BTreeSet<u64> = BTreeSet::new();
    add_all(&mut out, keys);
    assert(out@ =~= keys@.to_set());
    out
}

/// Puts some numbers into a set.
pub fn add_all(set: &mut BTreeSet<u64>, keys: &Vec<u64>)
    ensures
        final(set)@ == old(set)@.union(keys@.to_set()),
{
    let ghost was = set@;
    let mut i: usize = 0;
    assert(was.union(keys@.take(0).to_set()) =~= was);
    while i < keys.len()
        invariant
            i <= keys.len(),
            set@ == was.union(keys@.take(i as int).to_set()),
        decreases keys.len() - i,
    {
        let _new: bool = set.insert(keys[i]);
        proof {
            lemma_set_step(keys@, i as int);
            assert(set@ =~= was.union(keys@.take(i + 1).to_set()));
        }
        i += 1;
    }
    assert(keys@.take(i as int) =~= keys@);
}

/// One number more makes a set of one more.
pub proof fn lemma_set_step(keys: Seq<u64>, i: int)
    requires
        0 <= i < keys.len(),
    ensures
        keys.take(i + 1).to_set() == keys.take(i).to_set().insert(keys[i]),
{
    let less = keys.take(i);
    let more = keys.take(i + 1);
    assert forall|x: u64| more.to_set().contains(x) <==> less.to_set().insert(keys[i]).contains(
        x,
    ) by {
        if less.contains(x) {
            let k = choose|k: int| 0 <= k < less.len() && less[k] == x;
            assert(more[k] == x);
        }
        if more.contains(x) && x != keys[i] {
            let k = choose|k: int| 0 <= k < more.len() && more[k] == x;
            assert(less[k] == x);
        }
        assert(more[i] == keys[i]);
    }
    assert(more.to_set() =~= less.to_set().insert(keys[i]));
}

/// What of a set is among `keys`.
pub fn kept(set: &BTreeSet<u64>, keys: &Vec<u64>) -> (out: BTreeSet<u64>)
    ensures
        out@ == set@.intersect(keys@.to_set()),
{
    let mut out: BTreeSet<u64> = BTreeSet::new();
    let mut i: usize = 0;
    assert(set@.intersect(keys@.take(0).to_set()) =~= Set::empty());
    while i < keys.len()
        invariant
            i <= keys.len(),
            out@ == set@.intersect(keys@.take(i as int).to_set()),
        decreases keys.len() - i,
    {
        proof {
            lemma_set_step(keys@, i as int);
        }
        if set.contains(&keys[i]) {
            let _new: bool = out.insert(keys[i]);
        }
        assert(out@ =~= set@.intersect(keys@.take(i + 1).to_set()));
        i += 1;
    }
    assert(keys@.take(i as int) =~= keys@);
    out
}

/// Is each number smaller than those behind it?
spec fn rises(list: Seq<u64>) -> bool {
    forall|i: int, j: int| 0 <= i < j < list.len() ==> list[i] < list[j]
}

/// Puts a number into a list that rises, unless it is there.
fn put_in_order(list: &mut Vec<u64>, k: u64)
    requires
        rises(old(list)@),
    ensures
        rises(final(list)@),
        final(list)@.to_set() == old(list)@.to_set().insert(k),
{
    let ghost was = list@;
    let mut at: usize = list.len();
    while at > 0 && list[at - 1] >= k
        invariant
            at <= list.len(),
            list@ == was,
            rises(was),
            forall|i: int| at <= i < was.len() ==> was[i] >= k,
        decreases at,
    {
        at -= 1;
    }
    if at < list.len() && list[at] == k {
        assert(was.contains(k)) by {
            assert(was[at as int] == k);
        }
        assert(was.to_set() =~= was.to_set().insert(k));
        return;
    }
    list.insert(at, k);
    let ghost now = list@;
    assert(now =~= was.insert(at as int, k));
    assert forall|x: u64| now.to_set().contains(x) <==> was.to_set().insert(k).contains(x) by {
        if now.contains(x) && x != k {
            let i = choose|i: int| 0 <= i < now.len() && now[i] == x;
            if i < at {
                assert(was[i] == x);
            } else {
                assert(was[i - 1] == x);
            }
        }
        if was.contains(x) {
            let i = choose|i: int| 0 <= i < was.len() && was[i] == x;
            if i < at {
                assert(now[i] == x);
            } else {
                assert(now[i + 1] == x);
            }
        }
        assert(now[at as int] == k);
    }
    assert(now.to_set() =~= was.to_set().insert(k));
}

/// The numbers of a set, the smallest first.
pub fn listed(set: &BTreeSet<u64>) -> (out: Vec<u64>)
    ensures
        is_listing(out@, set@),
{
    let mut out: Vec<u64> = Vec::new();
    assert(out@.to_set() =~= Set::empty());
    for k in it: set.iter()
        invariant
            it.seq().unref().to_set() == set@,
            rises(out@),
            out@.to_set() == it.seq().unref().take(it.index()).to_set(),
            it.index() == it.seq().len() ==> it.seq().unref().take(it.index())
                =~= it.seq().unref(),
    {
        put_in_order(&mut out, *k);
        proof {
            let all = it.seq().unref();
            lemma_set_step(all, it.index());
        }
    }
    assert(out@.to_set() =~= set@);
    out
}

/// A set has one listing.
pub proof fn law_a_listing_is_unique(a: Seq<u64>, b: Seq<u64>, keys: Set<u64>)
    requires
        is_listing(a, keys),
        is_listing(b, keys),
    ensures
        a == b,
    decreases a.len(),
{
    if a.len() == 0 {
        if b.len() > 0 {
            assert(b.contains(b[0]));
            assert(keys.contains(b[0]));
            assert(a.contains(b[0]));
        }
        assert(a =~= b);
    } else {
        assert(a.contains(a[0]));
        assert(a.to_set().contains(a[0]));
        assert(b.contains(a[0]));
        let j = choose|j: int| 0 <= j < b.len() && b[j] == a[0];
        assert(b.contains(b[0]));
        assert(b.to_set().contains(b[0]));
        assert(a.contains(b[0]));
        let i = choose|i: int| 0 <= i < a.len() && a[i] == b[0];
        assert(a[0] == b[0]);
        let a1 = a.skip(1);
        let b1 = b.skip(1);
        assert(a1.to_set() =~= keys.remove(a[0])) by {
            assert forall|x: u64| a1.to_set().contains(x) <==> keys.remove(a[0]).contains(x) by {
                if a1.contains(x) {
                    let k = choose|k: int| 0 <= k < a1.len() && a1[k] == x;
                    assert(a[k + 1] == x);
                    assert(a.contains(x));
                }
                if keys.remove(a[0]).contains(x) {
                    assert(a.contains(x));
                    let k = choose|k: int| 0 <= k < a.len() && a[k] == x;
                    assert(a1[k - 1] == x);
                }
            }
        }
        assert(b1.to_set() =~= keys.remove(a[0])) by {
            assert forall|x: u64| b1.to_set().contains(x) <==> keys.remove(a[0]).contains(x) by {
                if b1.contains(x) {
                    let k = choose|k: int| 0 <= k < b1.len() && b1[k] == x;
                    assert(b[k + 1] == x);
                    assert(b.contains(x));
                }
                if keys.remove(a[0]).contains(x) {
                    assert(b.contains(x));
                    let k = choose|k: int| 0 <= k < b.len() && b[k] == x;
                    assert(b1[k - 1] == x);
                }
            }
        }
        law_a_listing_is_unique(a1, b1, keys.remove(a[0]));
        assert(a =~= seq![a[0]] + a1);
        assert(b =~= seq![b[0]] + b1);
    }
}

} // verus!
