//! Which lights, shadows, skies and waters of a scene a frame is shaded with.

use crate::order::{
    are_places, comes_first, in_order, lemma_place_is_there, sorted_places, Ranked,
};
use crate::lists::{lemma_filter_holds, lemma_filter_none, lemma_filter_step};
use crate::table::Table;
use crate::text::same_text;
use vstd::prelude::*;

verus! {

// ---- sorting layers --------------------------------------------------------

/// How many sorting layers a light can tell apart.
pub const MASK_BITS: usize = 128;

/// Is bit `r` of a mask set? It is bit `r % 32` of word `r / 32`.
pub open spec fn has_bit(mask: Seq<u32>, r: int) -> bool {
    (mask[r / 32] >> ((r % 32) as u32)) & 1 == 1
}

/// Is `name` among `names`?
pub open spec fn names_hold(names: Seq<String>, name: Seq<char>) -> bool {
    exists|i: int| 0 <= i < names.len() && (#[trigger] names[i])@ == name
}

/// Does a light that names these layers reach the layer of rank `r`? One that
/// names none reaches all, also those that there are not.
pub open spec fn reaches(layers: Seq<String>, sorting: Seq<String>, r: int) -> bool {
    layers.len() == 0 || (r < sorting.len() && names_hold(layers, sorting[r]@))
}

/// Is this the mask of a light that names these layers?
pub open spec fn is_mask(layers: Seq<String>, sorting: Seq<String>, mask: Seq<u32>) -> bool {
    mask.len() == 4 && forall|r: int|
        0 <= r < MASK_BITS ==> #[trigger] has_bit(mask, r) == reaches(layers, sorting, r)
}

/// Setting a bit sets that bit and no other.
proof fn lemma_set_bit(w: u32, b: u32, c: u32)
    requires
        b < 32,
        c < 32,
    ensures
        (((w | (1u32 << b)) >> c) & 1 == 1) == (b == c || (w >> c) & 1 == 1),
{
    assert((((w | (1u32 << b)) >> c) & 1 == 1) == (b == c || (w >> c) & 1 == 1)) by (bit_vector)
        requires
            b < 32,
            c < 32,
    ;
}

/// All bits of one word are set, and none of another.
proof fn lemma_full_and_empty(c: u32)
    requires
        c < 32,
    ensures
        (0xffff_ffffu32 >> c) & 1 == 1,
        (0u32 >> c) & 1 == 0,
{
    assert((0xffff_ffffu32 >> c) & 1 == 1) by (bit_vector)
        requires
            c < 32,
    ;
    assert((0u32 >> c) & 1 == 0) by (bit_vector)
        requires
            c < 32,
    ;
}

/// Is `name` among `names`?
fn is_named(names: &Vec<String>, name: &str) -> (out: bool)
    ensures
        out == names_hold(names@, name@),
{
    let mut i: usize = 0;
    while i < names.len()
        invariant
            i <= names.len(),
            forall|j: int| 0 <= j < i ==> (#[trigger] names@[j])@ != name@,
        decreases names.len() - i,
    {
        if same_text(names[i].as_str(), name) {
            assert(names@[i as int]@ == name@);
            return true;
        }
        i += 1;
    }
    false
}

/// The layers that a light reaches, as bits over their ranks in four words. A
/// light that names none reaches every layer, and a name that is no layer sets
/// no bit.
pub fn layer_mask(layers: &Vec<String>, sorting_names: &Vec<String>) -> (out: [u32; 4])
    ensures
        is_mask(layers@, sorting_names@, out@),
{
    if layers.len() == 0 {
        let all: [u32; 4] = [0xffff_ffff, 0xffff_ffff, 0xffff_ffff, 0xffff_ffff];
        proof {
            assert forall|r: int| 0 <= r < MASK_BITS implies #[trigger] has_bit(all@, r) == reaches(
                layers@,
                sorting_names@,
                r,
            ) by {
                lemma_full_and_empty((r % 32) as u32);
                assert(all@[r / 32] == 0xffff_ffffu32);
            }
        }
        return all;
    }
    let mut mask: [u32; 4] = [0, 0, 0, 0];
    let n: usize = if sorting_names.len() < MASK_BITS {
        sorting_names.len()
    } else {
        MASK_BITS
    };
    let mut rank: usize = 0;
    proof {
        assert forall|r: int| 0 <= r < MASK_BITS implies !#[trigger] has_bit(mask@, r) by {
            lemma_full_and_empty((r % 32) as u32);
            assert(mask@[r / 32] == 0u32);
        }
    }
    while rank < n
        invariant
            rank <= n,
            n <= MASK_BITS,
            n <= sorting_names@.len(),
            layers@.len() > 0,
            mask@.len() == 4,
            forall|r: int|
                0 <= r < MASK_BITS ==> #[trigger] has_bit(mask@, r) == (r < rank && reaches(
                    layers@,
                    sorting_names@,
                    r,
                )),
        decreases n - rank,
    {
        if is_named(layers, sorting_names[rank].as_str()) {
            let word: usize = rank / 32;
            let bit: u32 = (rank % 32) as u32;
            let ghost was = mask@;
            let old_word: u32 = mask[word];
            mask[word] = old_word | (1u32 << bit);
            proof {
                assert forall|r: int| 0 <= r < MASK_BITS implies #[trigger] has_bit(mask@, r) == (r
                    < rank + 1 && reaches(layers@, sorting_names@, r)) by {
                    assert(has_bit(was, r) == (r < rank && reaches(layers@, sorting_names@, r)));
                    if r / 32 == word {
                        lemma_set_bit(old_word, bit, (r % 32) as u32);
                        assert(r == 32 * (r / 32) + r % 32);
                        assert(rank == 32 * (rank / 32) + rank % 32);
                    } else {
                        assert(mask@[r / 32] == was[r / 32]);
                    }
                }
            }
        } else {
            assert(!reaches(layers@, sorting_names@, rank as int));
        }
        rank += 1;
    }
    proof {
        assert forall|r: int| 0 <= r < MASK_BITS implies #[trigger] has_bit(mask@, r) == reaches(
            layers@,
            sorting_names@,
            r,
        ) by {
            assert(has_bit(mask@, r) == (r < n && reaches(layers@, sorting_names@, r)));
        }
    }
    mask
}

/// A light that names no layer reaches every one; a light that names some reaches those that
/// it names and no others, in whatever order it names them.
pub proof fn law_a_light_reaches_what_it_names(
    layers: Seq<String>,
    sorting: Seq<String>,
    r: int,
    mask: Seq<u32>,
)
    requires
        0 <= r < MASK_BITS,
        is_mask(layers, sorting, mask),
    ensures
        layers.len() == 0 ==> has_bit(mask, r),
        layers.len() > 0 && r >= sorting.len() ==> !has_bit(mask, r),
        layers.len() > 0 && r < sorting.len() ==> (has_bit(mask, r) <==> exists|i: int|
            0 <= i < layers.len() && (#[trigger] layers[i])@ == sorting[r]@),
{
    assert(has_bit(mask, r) == reaches(layers, sorting, r));
}

/// A brighter light ranks before a dimmer one, and of two that matter the same the one of the
/// earlier node does.
pub proof fn law_the_light_that_matters_more_ranks_first(a: Candidate, b: Candidate)
    ensures
        a.score > b.score ==> a.ranks_before(&b),
        a.score == b.score && a.order < b.order ==> a.ranks_before(&b),
        a.ranks_before(&b) ==> a.score >= b.score,
{
}

// ---- the lights that are chosen --------------------------------------------

/// How many lights of a kind a frame is shaded with.
pub const LIGHT_SLOTS: usize = 16;

/// A light that could be chosen: how much it matters here, as a number that
/// orders that, and the number of its node.
#[derive(Clone, Copy, Debug, PartialEq, Eq, Structural)]
pub struct Candidate {
    pub score: i64,
    pub order: u32,
}

impl Ranked for Candidate {
    open spec fn ranks_before(&self, other: &Self) -> bool {
        self.score > other.score || (self.score == other.score && self.order < other.order)
    }

    proof fn ranking(a: &Self, b: &Self, c: &Self) {
    }

    fn is_before(&self, other: &Self) -> (out: bool) {
        self.score > other.score || (self.score == other.score && self.order < other.order)
    }
}

/// Are these the lights that are chosen? All of them, as they stand, where there
/// is room; or else those that matter most.
pub open spec fn is_choice(list: Seq<Candidate>, out: Seq<usize>) -> bool {
    if list.len() <= LIGHT_SLOTS {
        out.len() == list.len() && forall|i: int| 0 <= i < out.len() ==> #[trigger] out[i] == i
    } else {
        exists|all: Seq<usize>| #[trigger] is_ranking(list, all) && out == all.take(
            LIGHT_SLOTS as int,
        )
    }
}

/// Are these all lights, those that matter most first?
pub open spec fn is_ranking(list: Seq<Candidate>, all: Seq<usize>) -> bool {
    are_places(all, list.len()) && in_order(list, all)
}

/// The lights that are chosen.
pub fn fill(lights: &Vec<Candidate>) -> (out: Vec<usize>)
    ensures
        is_choice(lights@, out@),
        forall|i: int| 0 <= i < out@.len() ==> (#[trigger] out@[i]) < lights@.len(),
        out@.len() <= LIGHT_SLOTS,
{
    if lights.len() > LIGHT_SLOTS {
        let all: Vec<usize> = sorted_places(lights);
        let ghost full = all@;
        let mut best: Vec<usize> = all;
        best.truncate(LIGHT_SLOTS);
        assert(is_ranking(lights@, full));
        assert(best@ =~= full.take(LIGHT_SLOTS as int));
        best
    } else {
        let mut out: Vec<usize> = Vec::new();
        let mut i: usize = 0;
        while i < lights.len()
            invariant
                i <= lights.len(),
                out@.len() == i,
                forall|j: int| 0 <= j < i ==> #[trigger] out@[j] == j,
            decreases lights.len() - i,
        {
            out.push(i);
            i += 1;
        }
        out
    }
}

/// No two lights are of the same node.
pub open spec fn distinct_orders(list: Seq<Candidate>) -> bool {
    forall|i: int, j: int|
        0 <= i < j < list.len() ==> (#[trigger] list[i]).order != (#[trigger] list[j]).order
}

/// The lights that matter more than `c`.
pub open spec fn ahead_of(list: Seq<Candidate>, c: Candidate) -> Set<Candidate> {
    list.to_set().filter(|d: Candidate| d.ranks_before(&c))
}

/// As many lights matter more than the one at a place of the ranking as stand
/// before it there.
proof fn lemma_place_is_count(list: Seq<Candidate>, all: Seq<usize>, i: int)
    requires
        is_ranking(list, all),
        distinct_orders(list),
        0 <= i < all.len(),
    ensures
        ahead_of(list, list[all[i] as int]).len() == i,
{
    let c = list[all[i] as int];
    let front = Seq::new(i as nat, |k: int| list[all[k] as int]);
    assert(front.no_duplicates()) by {
        assert forall|a: int, b: int| 0 <= a < front.len() && 0 <= b < front.len() && a != b implies front[a]
            != front[b] by {
            let (pa, pb) = (all[a] as int, all[b] as int);
            if a < b {
                assert(all[a] != all[b]);
            } else {
                assert(all[b] != all[a]);
            }
            if pa < pb {
                assert(list[pa].order != list[pb].order);
            } else {
                assert(list[pb].order != list[pa].order);
            }
        }
    }
    assert(front.to_set() =~= ahead_of(list, c)) by {
        assert forall|d: Candidate| front.to_set().contains(d) <==> ahead_of(list, c).contains(d) by {
            if front.contains(d) {
                let k = choose|k: int| 0 <= k < front.len() && front[k] == d;
                assert(comes_first(list, all[k] as int, all[i] as int));
                let (pk, pi) = (all[k] as int, all[i] as int);
                assert(all[k] != all[i]);
                if pk < pi {
                    assert(list[pk].order != list[pi].order);
                } else {
                    assert(list[pi].order != list[pk].order);
                }
                assert(list.contains(d)) by {
                    assert(list[pk] == d);
                }
            }
            if ahead_of(list, c).contains(d) {
                assert(list.contains(d));
                let p = choose|p: int| 0 <= p < list.len() && list[p] == d;
                lemma_place_is_there(all, list.len(), p);
                let k = choose|k: int| #![trigger all[k]] 0 <= k < list.len() && all[k] == p;
                if k > i {
                    assert(comes_first(list, all[i] as int, all[k] as int));
                }
                assert(k < i);
                assert(front[k] == d);
            }
        }
    }
    front.unique_seq_to_set();
}

/// Is `c` among the lights that are chosen?
pub open spec fn is_chosen(list: Seq<Candidate>, out: Seq<usize>, c: Candidate) -> bool {
    exists|k: int| 0 <= k < out.len() && list[(#[trigger] out[k]) as int] == c
}

/// A light is chosen exactly where fewer than sixteen matter more.
pub proof fn law_those_that_matter_most_are_chosen(
    list: Seq<Candidate>,
    out: Seq<usize>,
    c: Candidate,
)
    requires
        distinct_orders(list),
        is_choice(list, out),
        list.contains(c),
    ensures
        list.len() <= LIGHT_SLOTS ==> is_chosen(list, out, c),
        list.len() > LIGHT_SLOTS ==> is_chosen(list, out, c) == (ahead_of(list, c).len()
            < LIGHT_SLOTS),
{
    let p = choose|p: int| 0 <= p < list.len() && list[p] == c;
    if list.len() <= LIGHT_SLOTS {
        assert(out[p] == p);
    } else {
        let all = choose|all: Seq<usize>| #[trigger] is_ranking(list, all) && out == all.take(
            LIGHT_SLOTS as int,
        );
        lemma_place_is_there(all, list.len(), p);
        let k = choose|k: int| #![trigger all[k]] 0 <= k < list.len() && all[k] == p;
        lemma_place_is_count(list, all, k);
        if k < LIGHT_SLOTS {
            assert(out[k] == all[k]);
            assert(is_chosen(list, out, c));
        }
        if is_chosen(list, out, c) {
            let j = choose|j: int| 0 <= j < out.len() && list[(#[trigger] out[j]) as int] == c;
            assert(out[j] == all[j]);
            lemma_place_is_count(list, all, j);
        }
    }
}

/// The lights that are chosen do not depend on the order in which they are
/// found: two lists of the same lights choose the same.
pub proof fn law_the_choice_does_not_depend_on_the_order(
    a: Seq<Candidate>,
    b: Seq<Candidate>,
    out_a: Seq<usize>,
    out_b: Seq<usize>,
    c: Candidate,
)
    requires
        distinct_orders(a),
        distinct_orders(b),
        a.to_set() == b.to_set(),
        is_choice(a, out_a),
        is_choice(b, out_b),
        a.contains(c),
    ensures
        is_chosen(a, out_a, c) == is_chosen(b, out_b, c),
{
    assert(a.no_duplicates()) by {
        assert forall|i: int, j: int| 0 <= i < a.len() && 0 <= j < a.len() && i != j implies a[i]
            != a[j] by {
            if i < j {
                assert(a[i].order != a[j].order);
            } else {
                assert(a[j].order != a[i].order);
            }
        }
    }
    assert(b.no_duplicates()) by {
        assert forall|i: int, j: int| 0 <= i < b.len() && 0 <= j < b.len() && i != j implies b[i]
            != b[j] by {
            if i < j {
                assert(b[i].order != b[j].order);
            } else {
                assert(b[j].order != b[i].order);
            }
        }
    }
    a.unique_seq_to_set();
    b.unique_seq_to_set();
    assert(a.to_set().contains(c));
    assert(b.contains(c));
    law_those_that_matter_most_are_chosen(a, out_a, c);
    law_those_that_matter_most_are_chosen(b, out_b, c);
    assert(ahead_of(a, c) =~= ahead_of(b, c));
}

/// How much each of some lights matters.
pub open spec fn scores(list: Seq<Candidate>) -> Seq<i64> {
    list.map_values(|c: Candidate| c.score)
}

/// No two lights matter the same.
pub open spec fn distinct_scores(list: Seq<Candidate>) -> bool {
    forall|i: int, j: int|
        0 <= i < j < list.len() ==> (#[trigger] list[i]).score != (#[trigger] list[j]).score
}

/// The scores of the lights that matter more than `v`.
pub open spec fn scores_above(list: Seq<Candidate>, v: i64) -> Set<i64> {
    scores(list).to_set().filter(|w: i64| w > v)
}

/// Is a light that matters `v` among those that are chosen?
pub open spec fn is_score_chosen(list: Seq<Candidate>, out: Seq<usize>, v: i64) -> bool {
    exists|k: int| 0 <= k < out.len() && list[(#[trigger] out[k]) as int].score == v
}

/// As many scores are above that of a light in the ranking as stand before it there.
proof fn lemma_place_is_count_of_scores(list: Seq<Candidate>, all: Seq<usize>, i: int)
    requires
        is_ranking(list, all),
        distinct_scores(list),
        0 <= i < all.len(),
    ensures
        scores_above(list, list[all[i] as int].score).len() == i,
{
    let v = list[all[i] as int].score;
    let front = Seq::new(i as nat, |k: int| list[all[k] as int].score);
    assert forall|a: int, b: int| 0 <= a < b < all.len() implies list[(#[trigger] all[a]) as int].score
        > list[(#[trigger] all[b]) as int].score by {
        let (pa, pb) = (all[a] as int, all[b] as int);
        assert(comes_first(list, pa, pb));
        assert(all[a] != all[b]);
        if pa < pb {
            assert(list[pa].score != list[pb].score);
        } else {
            assert(list[pb].score != list[pa].score);
        }
    }
    assert(front.no_duplicates()) by {
        assert forall|a: int, b: int| 0 <= a < front.len() && 0 <= b < front.len() && a != b implies front[a]
            != front[b] by {
            if a < b {
                assert(list[all[a] as int].score > list[all[b] as int].score);
            } else {
                assert(list[all[b] as int].score > list[all[a] as int].score);
            }
        }
    }
    assert(front.to_set() =~= scores_above(list, v)) by {
        assert forall|w: i64| front.to_set().contains(w) <==> scores_above(list, v).contains(w) by {
            if front.contains(w) {
                let k = choose|k: int| 0 <= k < front.len() && front[k] == w;
                assert(list[all[k] as int].score > list[all[i] as int].score);
                assert(scores(list)[all[k] as int] == w);
            }
            if scores_above(list, v).contains(w) {
                assert(scores(list).contains(w));
                let p = choose|p: int| 0 <= p < scores(list).len() && scores(list)[p] == w;
                lemma_place_is_there(all, list.len(), p);
                let k = choose|k: int| #![trigger all[k]] 0 <= k < list.len() && all[k] == p;
                if k > i {
                    assert(list[all[i] as int].score > list[all[k] as int].score);
                }
                assert(front[k] == w);
            }
        }
    }
    front.unique_seq_to_set();
}

/// Where no two lights matter the same, one is chosen exactly where fewer than
/// sixteen matter more, whichever node is which.
pub proof fn law_a_light_is_chosen_by_how_much_it_matters(
    list: Seq<Candidate>,
    out: Seq<usize>,
    v: i64,
)
    requires
        distinct_scores(list),
        is_choice(list, out),
        scores(list).contains(v),
    ensures
        is_score_chosen(list, out, v) == (list.len() <= LIGHT_SLOTS || scores_above(list, v).len()
            < LIGHT_SLOTS),
{
    let p = choose|p: int| 0 <= p < scores(list).len() && scores(list)[p] == v;
    if list.len() <= LIGHT_SLOTS {
        assert(out[p] == p);
    } else {
        let all = choose|all: Seq<usize>| #[trigger] is_ranking(list, all) && out == all.take(
            LIGHT_SLOTS as int,
        );
        lemma_place_is_there(all, list.len(), p);
        let k = choose|k: int| #![trigger all[k]] 0 <= k < list.len() && all[k] == p;
        lemma_place_is_count_of_scores(list, all, k);
        if k < LIGHT_SLOTS {
            assert(out[k] == all[k]);
        }
        if is_score_chosen(list, out, v) {
            let j = choose|j: int|
                0 <= j < out.len() && list[(#[trigger] out[j]) as int].score == v;
            assert(out[j] == all[j]);
            lemma_place_is_count_of_scores(list, all, j);
        }
    }
}

/// Two lists of lights that matter alike, none like another, choose alike, though
/// the nodes were made in another order and have other numbers.
pub proof fn law_the_choice_does_not_depend_on_the_nodes(
    a: Seq<Candidate>,
    b: Seq<Candidate>,
    out_a: Seq<usize>,
    out_b: Seq<usize>,
    v: i64,
)
    requires
        distinct_scores(a),
        distinct_scores(b),
        scores(a).to_set() == scores(b).to_set(),
        is_choice(a, out_a),
        is_choice(b, out_b),
    ensures
        out_a.len() == out_b.len(),
        is_score_chosen(a, out_a, v) == is_score_chosen(b, out_b, v),
{
    lemma_scores_once(a);
    lemma_scores_once(b);
    scores(a).unique_seq_to_set();
    scores(b).unique_seq_to_set();
    assert(scores_above(a, v) =~= scores_above(b, v));
    if scores(a).contains(v) {
        assert(scores(b).to_set().contains(v));
        law_a_light_is_chosen_by_how_much_it_matters(a, out_a, v);
        law_a_light_is_chosen_by_how_much_it_matters(b, out_b, v);
    } else {
        assert(!scores(b).to_set().contains(v));
        lemma_chosen_is_there(a, out_a, v);
        lemma_chosen_is_there(b, out_b, v);
    }
}

/// Scores that differ stand in their list once.
proof fn lemma_scores_once(list: Seq<Candidate>)
    requires
        distinct_scores(list),
    ensures
        scores(list).no_duplicates(),
{
    assert forall|i: int, j: int|
        0 <= i < scores(list).len() && 0 <= j < scores(list).len() && i != j implies scores(list)[i]
        != scores(list)[j] by {
        if i < j {
            assert(list[i].score != list[j].score);
        } else {
            assert(list[j].score != list[i].score);
        }
    }
}

/// What is chosen is one of the lights.
proof fn lemma_chosen_is_there(list: Seq<Candidate>, out: Seq<usize>, v: i64)
    requires
        is_choice(list, out),
    ensures
        is_score_chosen(list, out, v) ==> scores(list).contains(v),
{
    if is_score_chosen(list, out, v) {
        let k = choose|k: int| 0 <= k < out.len() && list[(#[trigger] out[k]) as int].score == v;
        if list.len() > LIGHT_SLOTS {
            let all = choose|all: Seq<usize>| #[trigger] is_ranking(list, all) && out == all.take(
                LIGHT_SLOTS as int,
            );
            assert(out[k] == all[k]);
        }
        assert(scores(list)[out[k] as int] == v);
    }
}

/// A light of the scene.
pub struct LightNode {
    /// The number of its node.
    pub order: u32,
    /// Does it shine at all, and reach anything?
    pub on: bool,
    /// Is its node switched off, or one above it?
    pub disabled: bool,
    /// Does it light flat things for this camera, rather than solid ones?
    pub flat: bool,
    /// The sorting layers that it names.
    pub layers: Vec<String>,
    /// How much it matters here, as a number that orders that.
    pub score: i64,
}

/// Can a light be chosen for this way of lighting?
pub open spec fn qualifies(n: LightNode, flat: bool) -> bool {
    n.on && !n.disabled && n.flat == flat
}

/// The lights, of the first `n`, that can be chosen for this way of lighting.
pub open spec fn side_of(nodes: Seq<LightNode>, flat: bool, n: int) -> Seq<int>
    decreases n,
{
    if n <= 0 {
        seq![]
    } else if qualifies(nodes[n - 1], flat) {
        side_of(nodes, flat, n - 1).push(n - 1)
    } else {
        side_of(nodes, flat, n - 1)
    }
}

/// How much each of some lights matters.
pub open spec fn candidates(nodes: Seq<LightNode>, side: Seq<int>) -> Seq<Candidate> {
    side.map_values(|i: int| Candidate { score: nodes[i].score, order: nodes[i].order })
}

/// A light that a frame is shaded with: which, and the layers that it reaches.
#[derive(Clone, Copy, Debug, PartialEq, Eq)]
pub struct LightSlot {
    pub light: usize,
    pub mask: [u32; 4],
}

/// Are these the slots of the chosen lights?
pub open spec fn are_slots(
    nodes: Seq<LightNode>,
    sorting: Seq<String>,
    side: Seq<int>,
    choice: Seq<usize>,
    slots: Seq<LightSlot>,
) -> bool {
    slots.len() == choice.len() && forall|k: int|
        0 <= k < slots.len() ==> (#[trigger] slots[k]).light == side[choice[k] as int] && is_mask(
            nodes[slots[k].light as int].layers@,
            sorting,
            slots[k].mask@,
        )
}

/// Is one way of lighting done with these lights?
pub open spec fn is_lit_by(
    nodes: Seq<LightNode>,
    sorting: Seq<String>,
    flat: bool,
    slots: Seq<LightSlot>,
) -> bool {
    let side = side_of(nodes, flat, nodes.len() as int);
    exists|choice: Seq<usize>| #[trigger]
        are_slots(nodes, sorting, side, choice, slots) && is_choice(candidates(nodes, side), choice)
}

/// How many of so many lights find no room.
pub open spec fn left_out(n: nat) -> nat {
    if n > LIGHT_SLOTS {
        (n - LIGHT_SLOTS) as nat
    } else {
        0
    }
}

/// The lights of a scene, for the two ways of lighting.
pub struct SplitLights {
    pub three_d: Vec<LightSlot>,
    pub two_d: Vec<LightSlot>,
    /// How many could be chosen and found no room.
    pub dropped: usize,
}

/// The lights of one way of lighting, and how many could be chosen.
fn light_side(
    nodes: &Vec<LightNode>,
    sorting_names: &Vec<String>,
    flat: bool,
) -> (out: (Vec<LightSlot>, usize))
    ensures
        is_lit_by(nodes@, sorting_names@, flat, out.0@),
        out.1 == side_of(nodes@, flat, nodes@.len() as int).len(),
        out.1 <= nodes@.len(),
{
    let mut side: Vec<usize> = Vec::new();
    let mut list: Vec<Candidate> = Vec::new();
    let mut i: usize = 0;
    let ghost mut model: Seq<int> = seq![];
    while i < nodes.len()
        invariant
            i <= nodes.len(),
            model == side_of(nodes@, flat, i as int),
            model.len() <= i,
            side@.len() == model.len(),
            list@.len() == model.len(),
            forall|k: int|
                0 <= k < model.len() ==> (#[trigger] side@[k]) == model[k] && side@[k]
                    < nodes@.len(),
            forall|k: int|
                0 <= k < model.len() ==> (#[trigger] list@[k]) == candidates(nodes@, model)[k],
        decreases nodes.len() - i,
    {
        let n: &LightNode = &nodes[i];
        if n.on && !n.disabled && n.flat == flat {
            side.push(i);
            list.push(Candidate { score: n.score, order: n.order });
            proof {
                let before = model;
                model = model.push(i as int);
                assert forall|k: int| 0 <= k < model.len() implies (#[trigger] list@[k])
                    == candidates(nodes@, model)[k] by {
                    if k < before.len() {
                        assert(list@[k] == candidates(nodes@, before)[k]);
                    }
                }
            }
        }
        i += 1;
    }
    assert(list@ =~= candidates(nodes@, model));
    let choice: Vec<usize> = fill(&list);
    let mut slots: Vec<LightSlot> = Vec::new();
    let mut k: usize = 0;
    while k < choice.len()
        invariant
            k <= choice.len(),
            slots@.len() == k,
            side@.len() == model.len(),
            list@.len() == model.len(),
            forall|j: int|
                0 <= j < model.len() ==> (#[trigger] side@[j]) == model[j] && side@[j]
                    < nodes@.len(),
            forall|j: int| 0 <= j < choice@.len() ==> (#[trigger] choice@[j]) < list@.len(),
            forall|j: int|
                0 <= j < k ==> (#[trigger] slots@[j]).light == model[choice@[j] as int] && is_mask(
                    nodes@[slots@[j].light as int].layers@,
                    sorting_names@,
                    slots@[j].mask@,
                ),
        decreases choice.len() - k,
    {
        let light: usize = side[choice[k]];
        let mask: [u32; 4] = layer_mask(&nodes[light].layers, sorting_names);
        slots.push(LightSlot { light, mask });
        k += 1;
    }
    assert(are_slots(nodes@, sorting_names@, model, choice@, slots@));
    (slots, side.len())
}

/// The lights that a frame is shaded with. Each is on one side and no other. One
/// that is off, or whose node is, takes no room.
pub fn split_point_lights(
    nodes: &Vec<LightNode>,
    sorting_names: &Vec<String>,
) -> (out: SplitLights)
    ensures
        is_lit_by(nodes@, sorting_names@, false, out.three_d@),
        is_lit_by(nodes@, sorting_names@, true, out.two_d@),
        out.dropped == left_out(side_of(nodes@, false, nodes@.len() as int).len())
            + left_out(side_of(nodes@, true, nodes@.len() as int).len()),
{
    let (three_d, n3): (Vec<LightSlot>, usize) = light_side(
        nodes,
        sorting_names,
        false,
    );
    let (two_d, n2): (Vec<LightSlot>, usize) = light_side(nodes, sorting_names, true);
    let all: usize = nodes.len();
    proof {
        lemma_sides_part(nodes@, all as int);
    }
    let out3: usize = if n3 > LIGHT_SLOTS {
        n3 - LIGHT_SLOTS
    } else {
        0
    };
    let out2: usize = if n2 > LIGHT_SLOTS {
        n2 - LIGHT_SLOTS
    } else {
        0
    };
    SplitLights { three_d, two_d, dropped: out3 + out2 }
}

/// The two sides together are no more than all lights.
proof fn lemma_sides_part(nodes: Seq<LightNode>, n: int)
    requires
        0 <= n <= nodes.len(),
    ensures
        side_of(nodes, false, n).len() + side_of(nodes, true, n).len()
            <= n,
    decreases n,
{
    if n > 0 {
        lemma_sides_part(nodes, n - 1);
    }
}

/// A light is on one side and only one; one that is off is on none.
pub proof fn law_a_light_is_on_one_side(n: LightNode)
    ensures
        !(qualifies(n, true) && qualifies(n, false)),
        n.on && !n.disabled ==> qualifies(n, true) || qualifies(
            n,
            false,
        ),
        !n.on || n.disabled ==> !qualifies(n, true) && !qualifies(
            n,
            false,
        ),
{
}

/// What is on a side can be chosen for it, and all that can be chosen is on it.
pub proof fn law_a_side_holds_what_qualifies(
    nodes: Seq<LightNode>,
    flat: bool,
    n: int,
    i: int,
)
    requires
        0 <= n <= nodes.len(),
        0 <= i < n,
    ensures
        side_of(nodes, flat, n).contains(i) == qualifies(nodes[i], flat),
    decreases n,
{
    let all = side_of(nodes, flat, n);
    let less = side_of(nodes, flat, n - 1);
    if i < n - 1 {
        law_a_side_holds_what_qualifies(nodes, flat, n - 1, i);
        if less.contains(i) {
            let k = choose|k: int| 0 <= k < less.len() && less[k] == i;
            assert(all[k] == i);
        }
        if all.contains(i) {
            let k = choose|k: int| 0 <= k < all.len() && all[k] == i;
            assert(less[k] == i);
        }
    } else {
        lemma_side_below(nodes, flat, n - 1);
        if qualifies(nodes[i], flat) {
            assert(all[less.len() as int] == i);
        } else if all.contains(i) {
            let k = choose|k: int| 0 <= k < all.len() && all[k] == i;
            assert(less[k] == i);
        }
    }
}

/// The places of a side are below where it was looked for.
proof fn lemma_side_below(nodes: Seq<LightNode>, flat: bool, n: int)
    ensures
        forall|k: int|
            0 <= k < side_of(nodes, flat, n).len() ==> (#[trigger] side_of(
                nodes,
                flat,
                n,
            )[k]) < n,
    decreases n,
{
    if n > 0 {
        lemma_side_below(nodes, flat, n - 1);
        let all = side_of(nodes, flat, n);
        let less = side_of(nodes, flat, n - 1);
        assert forall|k: int| 0 <= k < all.len() implies (#[trigger] all[k]) < n by {
            if k < less.len() {
                assert(all[k] == less[k]);
            }
        }
    }
}

/// The places of a side rise, and what stands there can be chosen.
proof fn lemma_side_rises(nodes: Seq<LightNode>, flat: bool, n: int)
    requires
        n <= nodes.len(),
    ensures
        ({
            let side = side_of(nodes, flat, n);
            &&& forall|k: int|
                0 <= k < side.len() ==> 0 <= (#[trigger] side[k]) < n && qualifies(
                    nodes[side[k]],
                    flat,
                )
            &&& forall|j: int, k: int|
                0 <= j < k < side.len() ==> (#[trigger] side[j]) < (#[trigger] side[k])
        }),
    decreases n,
{
    if n > 0 {
        lemma_side_rises(nodes, flat, n - 1);
        let all = side_of(nodes, flat, n);
        let less = side_of(nodes, flat, n - 1);
        assert(forall|k: int| 0 <= k < less.len() ==> (#[trigger] all[k]) == less[k]);
    }
}

/// The lights that are chosen are lights, and none of them twice.
proof fn lemma_choice_is_of_places(list: Seq<Candidate>, choice: Seq<usize>)
    requires
        is_choice(list, choice),
    ensures
        choice.len() == if list.len() <= LIGHT_SLOTS {
            list.len() as int
        } else {
            LIGHT_SLOTS as int
        },
        forall|k: int| 0 <= k < choice.len() ==> (#[trigger] choice[k]) < list.len(),
        forall|j: int, k: int|
            0 <= j < k < choice.len() ==> (#[trigger] choice[j]) != (#[trigger] choice[k]),
        forall|p: int, k: int|
            #![trigger list[p], choice[k]]
            0 <= p < list.len() && 0 <= k < choice.len() && !choice.contains(p as usize)
                ==> list[p].score <= list[choice[k] as int].score,
{
    if list.len() > LIGHT_SLOTS {
        let all = choose|all: Seq<usize>| #[trigger] is_ranking(list, all) && choice == all.take(
            LIGHT_SLOTS as int,
        );
        assert(forall|k: int| 0 <= k < choice.len() ==> (#[trigger] choice[k]) == all[k]);
        assert forall|p: int, k: int|
            #![trigger list[p], choice[k]]
            0 <= p < list.len() && 0 <= k < choice.len() && !choice.contains(
                p as usize,
            ) implies list[p].score <= list[choice[k] as int].score by {
            lemma_place_is_there(all, list.len(), p);
            let i = choose|i: int| #![trigger all[i]] 0 <= i < list.len() && all[i] == p;
            if i < LIGHT_SLOTS {
                assert(choice[i] == p as usize);
            }
            assert(comes_first(list, all[k] as int, all[i] as int));
        }
    } else {
        assert forall|p: int, k: int|
            #![trigger list[p], choice[k]]
            0 <= p < list.len() && 0 <= k < choice.len() && !choice.contains(
                p as usize,
            ) implies list[p].score <= list[choice[k] as int].score by {
            assert(choice[p] == p as usize);
        }
    }
}

/// Is a light among those of these slots?
pub open spec fn is_lit(slots: Seq<LightSlot>, i: int) -> bool {
    exists|k: int| 0 <= k < slots.len() && (#[trigger] slots[k]).light == i
}

/// A side is lit by as many lights as can be chosen for it, but by sixteen at most.
/// Each of them can be chosen for it and is there once, and none that is left out
/// matters more than one of them.
pub proof fn law_a_side_is_lit_by_those_that_matter_most(
    nodes: Seq<LightNode>,
    sorting: Seq<String>,
    flat: bool,
    slots: Seq<LightSlot>,
)
    requires
        is_lit_by(nodes, sorting, flat, slots),
        nodes.len() <= usize::MAX,
    ensures
        ({
            let side = side_of(nodes, flat, nodes.len() as int);
            slots.len() + left_out(side.len()) == side.len() && slots.len() <= LIGHT_SLOTS
        }),
        forall|k: int|
            0 <= k < slots.len() ==> (#[trigger] slots[k]).light < nodes.len() && qualifies(
                nodes[slots[k].light as int],
                flat,
            ),
        forall|j: int, k: int|
            0 <= j < k < slots.len() ==> (#[trigger] slots[j]).light != (#[trigger] slots[k]).light,
        forall|i: int, k: int|
            #![trigger nodes[i], slots[k]]
            0 <= i < nodes.len() && qualifies(nodes[i], flat) && !is_lit(slots, i)
                && 0 <= k < slots.len() ==> nodes[i].score <= nodes[slots[k].light as int].score,
{
    let side = side_of(nodes, flat, nodes.len() as int);
    let list = candidates(nodes, side);
    let choice = choose|choice: Seq<usize>| #[trigger]
        are_slots(nodes, sorting, side, choice, slots) && is_choice(list, choice);
    lemma_side_rises(nodes, flat, nodes.len() as int);
    lemma_choice_is_of_places(list, choice);
    assert(forall|k: int| 0 <= k < slots.len() ==> (#[trigger] slots[k]).light == side[choice[k] as int]);
    assert forall|j: int, k: int| 0 <= j < k < slots.len() implies (#[trigger] slots[j]).light != (
    #[trigger] slots[k]).light by {
        assert(choice[j] != choice[k]);
        if choice[j] < choice[k] {
            assert(side[choice[j] as int] < side[choice[k] as int]);
        } else {
            assert(side[choice[k] as int] < side[choice[j] as int]);
        }
    }
    assert forall|i: int, k: int|
        #![trigger nodes[i], slots[k]]
        0 <= i < nodes.len() && qualifies(nodes[i], flat) && !is_lit(slots, i) && 0
            <= k < slots.len() implies nodes[i].score <= nodes[slots[k].light as int].score by {
        law_a_side_holds_what_qualifies(nodes, flat, nodes.len() as int, i);
        let p = choose|p: int| 0 <= p < side.len() && side[p] == i;
        lemma_side_is_short(nodes, flat, nodes.len() as int);
        if choice.contains(p as usize) {
            let q = choose|q: int| 0 <= q < choice.len() && choice[q] == p as usize;
            assert(slots[q].light == i);
        }
        assert(list[p].score == nodes[i].score);
        assert(list[choice[k] as int].score == nodes[slots[k].light as int].score);
    }
}

/// A side has no more lights than there are.
proof fn lemma_side_is_short(nodes: Seq<LightNode>, flat: bool, n: int)
    requires
        0 <= n,
    ensures
        side_of(nodes, flat, n).len() <= n,
    decreases n,
{
    if n > 0 {
        lemma_side_is_short(nodes, flat, n - 1);
    }
}

/// Is a light that matters `v` among those of these slots?
pub open spec fn is_score_lit(nodes: Seq<LightNode>, slots: Seq<LightSlot>, v: i64) -> bool {
    exists|k: int| 0 <= k < slots.len() && nodes[(#[trigger] slots[k]).light as int].score == v
}

/// The same lights made in another order light the same: two scenes whose lights
/// matter alike on a side, none of them like another, are lit there by lights that
/// matter alike, and as many.
pub proof fn law_the_light_does_not_depend_on_who_was_made_first(
    a: Seq<LightNode>,
    b: Seq<LightNode>,
    sorting: Seq<String>,
    flat: bool,
    slots_a: Seq<LightSlot>,
    slots_b: Seq<LightSlot>,
    v: i64,
)
    requires
        is_lit_by(a, sorting, flat, slots_a),
        is_lit_by(b, sorting, flat, slots_b),
        ({
            let la = candidates(a, side_of(a, flat, a.len() as int));
            let lb = candidates(b, side_of(b, flat, b.len() as int));
            distinct_scores(la) && distinct_scores(lb) && scores(la).to_set() == scores(
                lb,
            ).to_set()
        }),
    ensures
        slots_a.len() == slots_b.len(),
        is_score_lit(a, slots_a, v) == is_score_lit(b, slots_b, v),
{
    let sa = side_of(a, flat, a.len() as int);
    let sb = side_of(b, flat, b.len() as int);
    let ca = choose|choice: Seq<usize>| #[trigger]
        are_slots(a, sorting, sa, choice, slots_a) && is_choice(candidates(a, sa), choice);
    let cb = choose|choice: Seq<usize>| #[trigger]
        are_slots(b, sorting, sb, choice, slots_b) && is_choice(candidates(b, sb), choice);
    law_the_choice_does_not_depend_on_the_nodes(candidates(a, sa), candidates(b, sb), ca, cb, v);
    lemma_lit_is_chosen(a, sorting, flat, slots_a, ca, v);
    lemma_lit_is_chosen(b, sorting, flat, slots_b, cb, v);
}

/// What is lit is what was chosen.
proof fn lemma_lit_is_chosen(
    nodes: Seq<LightNode>,
    sorting: Seq<String>,
    flat: bool,
    slots: Seq<LightSlot>,
    choice: Seq<usize>,
    v: i64,
)
    requires
        ({
            let side = side_of(nodes, flat, nodes.len() as int);
            are_slots(nodes, sorting, side, choice, slots) && is_choice(
                candidates(nodes, side),
                choice,
            )
        }),
    ensures
        is_score_lit(nodes, slots, v) == is_score_chosen(
            candidates(nodes, side_of(nodes, flat, nodes.len() as int)),
            choice,
            v,
        ),
{
    let side = side_of(nodes, flat, nodes.len() as int);
    let list = candidates(nodes, side);
    lemma_choice_is_of_places(list, choice);
    if is_score_lit(nodes, slots, v) {
        let k = choose|k: int|
            0 <= k < slots.len() && nodes[(#[trigger] slots[k]).light as int].score == v;
        assert(list[choice[k] as int].score == v);
    }
    if is_score_chosen(list, choice, v) {
        let k = choose|k: int|
            0 <= k < choice.len() && list[(#[trigger] choice[k]) as int].score == v;
        assert(slots[k].light == side[choice[k] as int]);
        assert(nodes[slots[k].light as int].score == v);
    }
}

/// The shape of what shines.
#[derive(Clone, Copy, Debug, PartialEq, Eq, Structural)]
pub enum EmitterShape {
    Point,
    Sphere,
    Rect { two_sided: bool },
    Disk { two_sided: bool },
    Tube,
}

/// The bit of an emitter that shines to both sides.
pub const LIGHT_TWO_SIDED: u32 = 1;

/// The bit of an emitter that casts shadows.
pub const LIGHT_SHADOWS: u32 = 2;

/// The number of a shape, and its bits.
pub open spec fn emitter_of(shape: EmitterShape, shadows: bool) -> (int, int) {
    let sh: int = if shadows {
        2
    } else {
        0
    };
    match shape {
        EmitterShape::Point => (0, sh),
        EmitterShape::Sphere => (1, sh),
        EmitterShape::Rect { two_sided } => (2, sh + if two_sided {
            1int
        } else {
            0
        }),
        EmitterShape::Disk { two_sided } => (3, sh + if two_sided {
            1int
        } else {
            0
        }),
        EmitterShape::Tube => (4, sh),
    }
}

/// The number of a shape, and its bits.
pub fn emitter_lane(shape: EmitterShape, shadows: bool) -> (out: (u32, u32))
    ensures
        (out.0 as int, out.1 as int) == emitter_of(shape, shadows),
{
    let sh: u32 = if shadows {
        LIGHT_SHADOWS
    } else {
        0
    };
    match shape {
        EmitterShape::Point => (0, sh),
        EmitterShape::Sphere => (1, sh),
        EmitterShape::Rect { two_sided } => if two_sided {
            (2, LIGHT_TWO_SIDED + sh)
        } else {
            (2, sh)
        },
        EmitterShape::Disk { two_sided } => if two_sided {
            (3, LIGHT_TWO_SIDED + sh)
        } else {
            (3, sh)
        },
        EmitterShape::Tube => (4, sh),
    }
}

/// Every shape has its own number. One bit says that it casts shadows, and the other that it
/// shines to both sides, which only what is flat can.
pub proof fn law_a_shape_has_its_own_number(a: EmitterShape, b: EmitterShape, shadows: bool)
    ensures
        emitter_of(a, shadows).0 == emitter_of(b, shadows).0 <==> (a is Point && b is Point) || (
        a is Sphere && b is Sphere) || (a is Rect && b is Rect) || (a is Disk && b is Disk) || (
        a is Tube && b is Tube),
        emitter_of(a, true).0 == emitter_of(a, false).0,
        emitter_of(a, true).1 == emitter_of(a, false).1 + LIGHT_SHADOWS,
        emitter_of(a, false).1 == LIGHT_TWO_SIDED <==> a == (EmitterShape::Rect { two_sided: true })
            || a == (EmitterShape::Disk { two_sided: true }),
        emitter_of(a, false).1 == LIGHT_TWO_SIDED || emitter_of(a, false).1 == 0,
{
}

// ---- the first few of a list -----------------------------------------------

/// How many atmospheres and how many stars a frame is shaded with.
pub const NEAR_SLOTS: usize = 4;

/// A number by which things are ranked, the smallest first.
#[derive(Clone, Copy, Debug, PartialEq, Eq, Structural)]
pub struct Smallest {
    pub key: i64,
}

/// A number by which things are ranked, the largest first.
#[derive(Clone, Copy, Debug, PartialEq, Eq, Structural)]
pub struct Largest {
    pub key: i64,
}

impl Ranked for Smallest {
    open spec fn ranks_before(&self, other: &Self) -> bool {
        self.key < other.key
    }

    proof fn ranking(a: &Self, b: &Self, c: &Self) {
    }

    fn is_before(&self, other: &Self) -> (out: bool) {
        self.key < other.key
    }
}

impl Ranked for Largest {
    open spec fn ranks_before(&self, other: &Self) -> bool {
        self.key > other.key
    }

    proof fn ranking(a: &Self, b: &Self, c: &Self) {
    }

    fn is_before(&self, other: &Self) -> (out: bool) {
        self.key > other.key
    }
}

/// Are these the first four of a list in its order (or all, where it has fewer)?
pub open spec fn are_first_four<T: Ranked>(list: Seq<T>, out: Seq<usize>) -> bool {
    exists|all: Seq<usize>| #[trigger]
        are_places(all, list.len()) && in_order(list, all) && out == all.take(
            if list.len() < NEAR_SLOTS {
                list.len() as int
            } else {
                NEAR_SLOTS as int
            },
        )
}

/// The first four of a list in its order.
fn first_four<T: Ranked>(list: &Vec<T>) -> (out: Vec<usize>)
    ensures
        are_first_four(list@, out@),
        out@.len() <= NEAR_SLOTS,
{
    let mut out: Vec<usize> = sorted_places(list);
    let ghost all = out@;
    if out.len() > NEAR_SLOTS {
        out.truncate(NEAR_SLOTS);
    }
    assert(out@ =~= all.take(
        if list@.len() < NEAR_SLOTS {
            list@.len() as int
        } else {
            NEAR_SLOTS as int
        },
    ));
    assert(are_places(all, list@.len()) && in_order(list@, all));
    out
}

/// The atmospheres that a frame is shaded with, deepest first. `depths` are the
/// numbers that order how far outside of each of them the camera is.
pub fn atmospheres(depths: &Vec<Smallest>) -> (out: Vec<usize>)
    ensures
        are_first_four(depths@, out@),
        out@.len() <= NEAR_SLOTS,
{
    first_four(depths)
}

/// The stars that a frame is shaded with, brightest first: none unless the
/// scene is lit by stars.
pub fn stars(lit_by_stars: bool, brightness: &Vec<Largest>) -> (out: Vec<usize>)
    ensures
        if lit_by_stars {
            are_first_four(brightness@, out@)
        } else {
            out@ == Seq::<usize>::empty()
        },
        out@.len() <= NEAR_SLOTS,
{
    if !lit_by_stars {
        return Vec::new();
    }
    first_four(brightness)
}

/// Where the main light comes from.
#[derive(Clone, Copy, Debug, PartialEq, Eq, Structural)]
pub enum Sun {
    /// From the direction that the scene says.
    Direction,
    /// From this star.
    Star(usize),
}

/// Where the main light comes from: from the brightest star, if the scene is lit
/// by stars and has one.
pub fn sun(lit_by_stars: bool, brightness: &Vec<Largest>) -> (out: Sun)
    ensures
        match out {
            Sun::Star(i) => lit_by_stars && i < brightness@.len() && forall|j: int|
                0 <= j < brightness@.len() ==> brightness@[i as int].key >= (
                #[trigger] brightness@[j]).key && (brightness@[i as int].key == brightness@[j].key
                    ==> i <= j),
            Sun::Direction => !lit_by_stars || brightness@.len() == 0,
        },
{
    let order: Vec<usize> = sorted_places(brightness);
    if !lit_by_stars || order.len() == 0 {
        return Sun::Direction;
    }
    proof {
        assert forall|j: int| 0 <= j < brightness@.len() implies brightness@[order@[0] as int].key
            >= (#[trigger] brightness@[j]).key && (brightness@[order@[0] as int].key
            == brightness@[j].key ==> order@[0] <= j) by {
            lemma_place_is_there(order@, brightness@.len(), j);
            let k = choose|k: int|
                #![trigger order@[k]]
                0 <= k < brightness@.len() && order@[k] == j;
            if k > 0 {
                assert(comes_first(brightness@, order@[0] as int, order@[k] as int));
            }
        }
    }
    Sun::Star(order[0])
}

/// Four at most are taken, each once, and none that is left ranks before one that is taken.
pub proof fn law_none_that_is_left_ranks_before<T: Ranked>(list: Seq<T>, out: Seq<usize>, p: int, k: int)
    requires
        are_first_four(list, out),
        list.len() <= usize::MAX,
        0 <= p < list.len(),
        0 <= k < out.len(),
        !out.contains(p as usize),
    ensures
        out.len() == NEAR_SLOTS,
        out[k] < list.len(),
        !list[p].ranks_before(&list[out[k] as int]),
{
    let n: int = if list.len() < NEAR_SLOTS {
        list.len() as int
    } else {
        NEAR_SLOTS as int
    };
    let all = choose|all: Seq<usize>| #[trigger]
        are_places(all, list.len()) && in_order(list, all) && out == all.take(n);
    lemma_place_is_there(all, list.len(), p);
    let i = choose|i: int| #![trigger all[i]] 0 <= i < list.len() && all[i] == p;
    assert(out[k] == all[k]);
    if i < n {
        assert(out[i] == p as usize);
    }
    assert(comes_first(list, all[k] as int, all[i] as int));
    T::ranking(&list[all[k] as int], &list[all[i] as int], &list[all[i] as int]);
}

/// The nearest atmosphere ranks first, and the brightest star.
pub proof fn law_near_and_bright_come_first(a: i64, b: i64)
    requires
        a < b,
    ensures
        (Smallest { key: a }).ranks_before(&Smallest { key: b }),
        !(Smallest { key: b }).ranks_before(&Smallest { key: a }),
        (Largest { key: b }).ranks_before(&Largest { key: a }),
        !(Largest { key: a }).ranks_before(&Largest { key: b }),
{
}

// ---- shadows ---------------------------------------------------------------

/// How many stand-ins for shapes cast shadows.
pub const MAX_SHADOW_PROXIES: usize = 32;

/// The shape of a stand-in.
#[derive(Clone, Copy, Debug, PartialEq, Eq, Structural)]
pub enum ProxyShape {
    BodySphere,
    BodyCapsule,
    BodyBox,
    Cube,
    Plane,
    Sphere,
    Capsule,
}

/// A node that has a body or something solid.
#[derive(Clone, Copy, Debug, PartialEq, Eq, Structural)]
pub struct ShadowNode {
    pub entity: u64,
    /// May it cast a shadow, and is it seen?
    pub casts: bool,
    pub visible: bool,
    /// Has it a body of its own? (Of a node that is looked at for its body, it
    /// has.)
    pub has_body: bool,
    /// The shape of its stand-in. `None` where it has none: a mesh casts its true
    /// shadow.
    pub shape: Option<ProxyShape>,
}

/// A stand-in that casts a shadow.
#[derive(Clone, Copy, Debug, PartialEq, Eq, Structural)]
pub struct Proxy {
    pub entity: u64,
    pub shape: ProxyShape,
}

/// The stand-ins of the first `n` nodes. Of solid nodes, those that have a body
/// are left out: their body casts.
pub open spec fn proxies_of(nodes: Seq<ShadowNode>, bodies: bool, n: int) -> Seq<Proxy>
    decreases n,
{
    if n <= 0 {
        seq![]
    } else {
        let before = proxies_of(nodes, bodies, n - 1);
        let node = nodes[n - 1];
        match node.shape {
            Some(shape) => if node.casts && node.visible && (bodies || !node.has_body) {
                before.push(Proxy { entity: node.entity, shape })
            } else {
                before
            },
            None => before,
        }
    }
}

/// The first of some stand-ins, as many as there is room for.
pub open spec fn as_many_as_fit(all: Seq<Proxy>) -> Seq<Proxy> {
    if all.len() > MAX_SHADOW_PROXIES {
        all.take(MAX_SHADOW_PROXIES as int)
    } else {
        all
    }
}

/// Puts the stand-ins of some nodes behind those that are there, as far as there
/// is room.
fn add_proxies(out: &mut Vec<Proxy>, nodes: &Vec<ShadowNode>, bodies: bool)
    requires
        old(out)@.len() <= MAX_SHADOW_PROXIES,
    ensures
        final(out)@ == as_many_as_fit(
            old(out)@ + proxies_of(nodes@, bodies, nodes@.len() as int),
        ),
{
    let ghost was = out@;
    let mut i: usize = 0;
    assert(was + proxies_of(nodes@, bodies, 0) =~= was);
    while i < nodes.len()
        invariant
            i <= nodes.len(),
            out@ == as_many_as_fit(was + proxies_of(nodes@, bodies, i as int)),
        decreases nodes.len() - i,
    {
        let node: ShadowNode = nodes[i];
        let ghost before = proxies_of(nodes@, bodies, i as int);
        let ghost after = proxies_of(nodes@, bodies, i + 1);
        match node.shape {
            Some(shape) => {
                if node.casts && node.visible && (bodies || !node.has_body) {
                    let proxy: Proxy = Proxy { entity: node.entity, shape };
                    assert(was + after =~= (was + before).push(proxy));
                    if out.len() < MAX_SHADOW_PROXIES {
                        assert((was + before).len() < MAX_SHADOW_PROXIES);
                        out.push(proxy);
                    } else {
                        assert(as_many_as_fit(was + after) =~= as_many_as_fit(was + before));
                    }
                }
            },
            None => {},
        }
        i += 1;
    }
}

/// The stand-ins that cast shadows: first of the bodies, which move, and then of
/// what is merely solid. None where shadows are off.
pub fn collect_shadow_proxies(
    bodies: &Vec<ShadowNode>,
    solids: &Vec<ShadowNode>,
    enabled: bool,
) -> (out: Vec<Proxy>)
    ensures
        out@ == if enabled {
            as_many_as_fit(
                proxies_of(bodies@, true, bodies@.len() as int) + proxies_of(
                    solids@,
                    false,
                    solids@.len() as int,
                ),
            )
        } else {
            Seq::empty()
        },
{
    let mut out: Vec<Proxy> = Vec::new();
    if !enabled {
        return out;
    }
    let ghost a = proxies_of(bodies@, true, bodies@.len() as int);
    let ghost b = proxies_of(solids@, false, solids@.len() as int);
    add_proxies(&mut out, bodies, true);
    assert(Seq::<Proxy>::empty() + a =~= a);
    add_proxies(&mut out, solids, false);
    proof {
        if a.len() > MAX_SHADOW_PROXIES {
            assert(as_many_as_fit(as_many_as_fit(a) + b) =~= as_many_as_fit(a + b));
        }
    }
    out
}

/// However many shapes there are, no more cast shadows than there is room for,
/// and a body never makes way for something that is merely solid.
pub proof fn law_bodies_cast_first(a: Seq<Proxy>, b: Seq<Proxy>, i: int)
    requires
        0 <= i < a.len(),
        i < MAX_SHADOW_PROXIES,
    ensures
        as_many_as_fit(a + b).len() <= MAX_SHADOW_PROXIES,
        i < as_many_as_fit(a + b).len(),
        as_many_as_fit(a + b)[i] == a[i],
{
}

/// A node casts by its stand-in exactly where it has one, may cast and is seen; of what is
/// merely solid, what has a body does not. Its stand-in is its own, behind those before it.
pub proof fn law_a_node_casts_by_its_own_shape(nodes: Seq<ShadowNode>, bodies: bool, n: int)
    requires
        0 < n <= nodes.len(),
    ensures
        ({
            let before = proxies_of(nodes, bodies, n - 1);
            let after = proxies_of(nodes, bodies, n);
            let node = nodes[n - 1];
            let casts = node.shape is Some && node.casts && node.visible && (bodies
                || !node.has_body);
            &&& before.is_prefix_of(after)
            &&& !casts ==> after == before
            &&& casts ==> after.len() == before.len() + 1 && after.last().entity == node.entity
                && node.shape == Some(after.last().shape)
        }),
{
}

/// Where there is room for all stand-ins, all are there.
pub proof fn law_no_shadow_is_lost_while_there_is_room(all: Seq<Proxy>)
    ensures
        all.len() <= MAX_SHADOW_PROXIES ==> as_many_as_fit(all) == all,
        all.len() >= MAX_SHADOW_PROXIES ==> as_many_as_fit(all).len() == MAX_SHADOW_PROXIES,
        as_many_as_fit(all).is_prefix_of(all),
{
}

// ---- the sky, the water and the lens ---------------------------------------

/// A node that may be the scene's sky, or its lens.
pub struct SceneNode {
    /// Is it a sky (or a lens)?
    pub is_one: bool,
    /// Is it switched off?
    pub disabled: bool,
}

/// Is `i` the first that is one and is switched on?
pub open spec fn is_first_on(nodes: Seq<SceneNode>, i: int) -> bool {
    0 <= i < nodes.len() && nodes[i].is_one && !nodes[i].disabled && forall|j: int|
        0 <= j < i ==> !((#[trigger] nodes[j]).is_one && !nodes[j].disabled)
}

/// Is none switched on?
pub open spec fn none_on(nodes: Seq<SceneNode>) -> bool {
    forall|j: int| 0 <= j < nodes.len() ==> !((#[trigger] nodes[j]).is_one && !nodes[j].disabled)
}

/// The first that is one and is switched on. One that is switched off makes way
/// for the next.
pub fn first_on(nodes: &Vec<SceneNode>) -> (out: Option<usize>)
    ensures
        match out {
            Some(i) => is_first_on(nodes@, i as int),
            None => none_on(nodes@),
        },
{
    let mut i: usize = 0;
    while i < nodes.len()
        invariant
            i <= nodes.len(),
            forall|j: int|
                0 <= j < i ==> !((#[trigger] nodes@[j]).is_one && !nodes@[j].disabled),
        decreases nodes.len() - i,
    {
        if nodes[i].is_one && !nodes[i].disabled {
            return Some(i);
        }
        i += 1;
    }
    None
}

/// How corners are darkened.
#[derive(Clone, Copy, Debug, PartialEq, Eq, Structural)]
pub enum AoMode {
    Off,
    ScreenSpace,
    Sdf,
}

/// What the scene's lens does.
#[derive(Clone, Copy, Debug, PartialEq, Eq, Structural)]
pub enum Lens {
    /// Nothing.
    Off,
    /// What the node at this place says. Corners are darkened on the screen, or
    /// where the shapes are known, or not.
    On { node: usize, ssao: bool, sdf_ao: bool },
}

/// What the scene's lens does: what the first one that is switched on says, if
/// its effects are.
pub fn post_process(nodes: &Vec<SceneNode>, effects: &Vec<(bool, AoMode)>) -> (out: Lens)
    requires
        effects@.len() == nodes@.len(),
    ensures
        match out {
            Lens::On { node, ssao, sdf_ao } => is_first_on(nodes@, node as int)
                && effects@[node as int].0 && ssao == (effects@[node as int].1
                == AoMode::ScreenSpace) && sdf_ao == (effects@[node as int].1 == AoMode::Sdf),
            Lens::Off => none_on(nodes@) || exists|i: int|
                #[trigger] is_first_on(nodes@, i) && !effects@[i].0,
        },
{
    match first_on(nodes) {
        Some(i) => {
            let (on, ao): (bool, AoMode) = effects[i];
            if !on {
                assert(is_first_on(nodes@, i as int));
                return Lens::Off;
            }
            Lens::On { node: i, ssao: ao == AoMode::ScreenSpace, sdf_ao: ao == AoMode::Sdf }
        },
        None => Lens::Off,
    }
}

/// The sky of a scene.
#[derive(Clone, Copy, Debug, PartialEq, Eq, Structural)]
pub enum Sky {
    /// There is none: the dark that is there by default.
    Dark,
    /// That of this node, with its picture or in one colour.
    Of { node: usize, textured: bool },
}

/// The sky of a scene: that of the first one that is switched on. `textured` says
/// of each node whether it has a picture.
pub fn skybox(nodes: &Vec<SceneNode>, textured: &Vec<bool>) -> (out: Sky)
    requires
        textured@.len() == nodes@.len(),
    ensures
        match out {
            Sky::Of { node, textured: t } => is_first_on(nodes@, node as int) && t
                == textured@[node as int],
            Sky::Dark => none_on(nodes@),
        },
{
    match first_on(nodes) {
        Some(node) => Sky::Of { node, textured: textured[node] },
        None => Sky::Dark,
    }
}

/// One that is switched off steps aside: the scene looks as if it were not there.
pub proof fn law_what_is_off_steps_aside(nodes: Seq<SceneNode>, at: int, i: int)
    requires
        0 <= at < nodes.len(),
        nodes[at].disabled,
        is_first_on(nodes, i),
    ensures
        i != at,
        is_first_on(nodes.remove(at), if i < at {
            i
        } else {
            i - 1
        }),
{
    let rest = nodes.remove(at);
    let k = if i < at {
        i
    } else {
        i - 1
    };
    assert(rest[k] == nodes[i]);
    assert forall|j: int| 0 <= j < k implies !((#[trigger] rest[j]).is_one && !rest[j].disabled) by {
        if j < at {
            assert(rest[j] == nodes[j]);
        } else {
            assert(rest[j] == nodes[j + 1]);
        }
    }
}

/// A curve by its number: one that there is not is the first.
pub fn tonemap(chosen: u32, curves: u32) -> (out: u32)
    ensures
        out == if chosen < curves {
            chosen
        } else {
            0
        },
{
    if chosen < curves {
        chosen
    } else {
        0
    }
}

/// A lens that may focus on a node.
pub struct FocusLens {
    pub disabled: bool,
    pub enabled: bool,
    /// The name of the node that it focuses on. Empty for none.
    pub target: String,
}

/// A node that may be focused on.
pub struct NamedNode {
    pub name: String,
    pub disabled: bool,
}

/// Does a lens focus on a node?
pub open spec fn focuses(l: FocusLens) -> bool {
    l.enabled && !l.disabled && l.target@.len() > 0
}

/// Is `i` the first lens that focuses on a node?
pub open spec fn is_focusing(lenses: Seq<FocusLens>, i: int) -> bool {
    0 <= i < lenses.len() && focuses(lenses[i]) && forall|j: int|
        0 <= j < i ==> !focuses(#[trigger] lenses[j])
}

/// Is `i` the first node of this name that is switched on?
pub open spec fn is_target(nodes: Seq<NamedNode>, name: Seq<char>, i: int) -> bool {
    0 <= i < nodes.len() && nodes[i].name@ == name && !nodes[i].disabled && forall|j: int|
        0 <= j < i ==> !((#[trigger] nodes[j]).name@ == name && !nodes[j].disabled)
}

/// Is there no node of this name that is switched on?
pub open spec fn no_target(nodes: Seq<NamedNode>, name: Seq<char>) -> bool {
    forall|j: int|
        0 <= j < nodes.len() ==> !((#[trigger] nodes[j]).name@ == name && !nodes[j].disabled)
}

/// Does no lens focus on a node?
pub open spec fn no_focus(lenses: Seq<FocusLens>) -> bool {
    forall|j: int| 0 <= j < lenses.len() ==> !focuses(#[trigger] lenses[j])
}

/// The node that the picture is focused on. Where there is none of that name, the
/// distance that the scene says stands.
pub fn focus_node(lenses: &Vec<FocusLens>, nodes: &Vec<NamedNode>) -> (out: Option<usize>)
    ensures
        match out {
            Some(i) => exists|l: int| #[trigger]
                is_focusing(lenses@, l) && is_target(nodes@, lenses@[l].target@, i as int),
            None => no_focus(lenses@) || exists|l: int| #[trigger]
                is_focusing(lenses@, l) && no_target(nodes@, lenses@[l].target@),
        },
{
    let mut l: usize = 0;
    while l < lenses.len()
        invariant
            l <= lenses.len(),
            forall|j: int| 0 <= j < l ==> !focuses(#[trigger] lenses@[j]),
        decreases lenses.len() - l,
    {
        let lens: &FocusLens = &lenses[l];
        if lens.enabled && !lens.disabled && lens.target.as_str().unicode_len() > 0 {
            assert(is_focusing(lenses@, l as int));
            let mut i: usize = 0;
            while i < nodes.len()
                invariant
                    i <= nodes.len(),
                    l < lenses.len(),
                    is_focusing(lenses@, l as int),
                    *lens == lenses@[l as int],
                    forall|j: int|
                        0 <= j < i ==> !((#[trigger] nodes@[j]).name@ == lens.target@
                            && !nodes@[j].disabled),
                decreases nodes.len() - i,
            {
                if same_text(nodes[i].name.as_str(), lens.target.as_str()) && !nodes[i].disabled {
                    assert(is_target(nodes@, lenses@[l as int].target@, i as int));
                    return Some(i);
                }
                i += 1;
            }
            assert(no_target(nodes@, lenses@[l as int].target@));
            return None;
        }
        l += 1;
    }
    None
}

/// A body of water: how deep the camera is in it, as a number that orders
/// depths. `None` where it is beside it.
#[derive(Clone, Copy, Debug, PartialEq, Eq, Structural)]
pub struct Water {
    pub frozen: bool,
    pub disabled: bool,
    pub depth: Option<u64>,
}

/// Is the camera in this water? One that is frozen has no inside.
pub open spec fn is_in(w: Water) -> bool {
    !w.frozen && !w.disabled && (w.depth matches Some(d) && d > 0)
}

/// Is `i` the first of the waters that the camera is deepest in?
pub open spec fn is_deepest(waters: Seq<Water>, i: int) -> bool {
    0 <= i < waters.len() && is_in(waters[i]) && forall|j: int|
        0 <= j < waters.len() && is_in(#[trigger] waters[j]) ==> waters[i].depth->Some_0
            >= waters[j].depth->Some_0 && (waters[i].depth->Some_0 == waters[j].depth->Some_0 ==> i
            <= j)
}

/// Is the camera in no water?
pub open spec fn is_dry(waters: Seq<Water>) -> bool {
    forall|j: int| 0 <= j < waters.len() ==> !is_in(#[trigger] waters[j])
}

/// The water that the camera is in: the one that it is deepest in.
pub fn underwater_at(waters: &Vec<Water>) -> (out: Option<usize>)
    ensures
        match out {
            Some(i) => is_deepest(waters@, i as int),
            None => is_dry(waters@),
        },
{
    let mut best: Option<(usize, u64)> = None;
    let mut i: usize = 0;
    while i < waters.len()
        invariant
            i <= waters.len(),
            match best {
                Some((b, d)) => b < i && is_deepest(waters@.take(i as int), b as int)
                    && waters@[b as int].depth == Some(d),
                None => is_dry(waters@.take(i as int)),
            },
        decreases waters.len() - i,
    {
        let ghost before = waters@.take(i as int);
        let ghost after = waters@.take(i + 1);
        assert(forall|j: int| 0 <= j < i ==> before[j] == #[trigger] after[j]);
        assert(after[i as int] == waters@[i as int]);
        let w: Water = waters[i];
        match w.depth {
            Some(d) => {
                let deeper: bool = match best {
                    Some((_, bd)) => d > bd,
                    None => true,
                };
                if !w.frozen && !w.disabled && d > 0 && deeper {
                    best = Some((i, d));
                }
            },
            None => {},
        }
        proof {
            match best {
                Some((b, d)) => {
                    assert forall|j: int|
                        0 <= j < after.len() && is_in(#[trigger] after[j]) implies after[b as int].depth->Some_0
                        >= after[j].depth->Some_0 && (after[b as int].depth->Some_0
                        == after[j].depth->Some_0 ==> b <= j) by {
                        if j < i {
                            assert(before[j] == after[j]);
                        }
                    }
                },
                None => {
                    assert forall|j: int| 0 <= j < after.len() implies !is_in(
                        #[trigger] after[j],
                    ) by {
                        if j < i {
                            assert(before[j] == after[j]);
                        }
                    }
                },
            }
        }
        i += 1;
    }
    assert(waters@.take(i as int) =~= waters@);
    match best {
        Some((b, _)) => Some(b),
        None => None,
    }
}

/// The waters that scripts are told of.
pub fn water_infos(waters: &Vec<Water>) -> (out: Vec<Water>)
    ensures
        out@ == waters@.filter(|w: Water| !w.disabled),
{
    let ghost keep = |w: Water| !w.disabled;
    let mut out: Vec<Water> = Vec::new();
    let mut i: usize = 0;
    proof {
        lemma_filter_none(waters@, keep);
    }
    while i < waters.len()
        invariant
            i <= waters.len(),
            keep == (|w: Water| !w.disabled),
            out@ == waters@.take(i as int).filter(keep),
        decreases waters.len() - i,
    {
        proof {
            lemma_filter_step(waters@, i as int, keep);
        }
        let w: Water = waters[i];
        if !w.disabled {
            out.push(w);
        }
        i += 1;
    }
    assert(waters@.take(i as int) =~= waters@);
    out
}

/// What fades with distance, and how.
#[derive(Clone, Copy, Debug, PartialEq, Eq, Structural)]
pub enum Fog {
    /// The water that the camera is in, in place of any fog.
    Water { volume: usize },
    /// Fog that is marched through. Particles fade by how dense it is.
    Volumetric,
    /// Fog by distance. Particles fade with it.
    Distance { on: bool },
}

/// What fades with distance. Under water the scene's own fog does not count.
pub fn fog_at(water: Option<usize>, fog: bool, volumetric: bool) -> (out: Fog)
    ensures
        out == match water {
            Some(volume) => Fog::Water { volume },
            None => if fog && volumetric {
                Fog::Volumetric
            } else {
                Fog::Distance { on: fog }
            },
        },
{
    match water {
        Some(volume) => Fog::Water { volume },
        None => if fog && volumetric {
            Fog::Volumetric
        } else {
            Fog::Distance { on: fog }
        },
    }
}

/// The deeper water takes over, and water that is frozen, switched off, or beside the camera
/// changes nothing.
pub proof fn law_the_deeper_water_takes_over(waters: Seq<Water>, i: int, w: Water)
    requires
        is_deepest(waters, i),
    ensures
        w.frozen || w.disabled || w.depth is None || w.depth == Some(0u64) ==> is_deepest(
            waters.push(w),
            i,
        ),
        !w.frozen && !w.disabled && (w.depth matches Some(d) && d > waters[i].depth->Some_0)
            ==> is_deepest(waters.push(w), waters.len() as int),
        !w.frozen && !w.disabled && (w.depth matches Some(d) && d <= waters[i].depth->Some_0)
            ==> is_deepest(waters.push(w), i),
        !waters[i].frozen && !waters[i].disabled && waters[i].depth is Some,
{
}

/// A lens focuses exactly where it is switched on, not hidden, and names a node.
pub proof fn law_a_lens_focuses_where_it_names_a_node(l: FocusLens)
    ensures
        focuses(l) <==> l.enabled && !l.disabled && l.target@ != Seq::<char>::empty(),
{
    if l.target@.len() == 0 {
        assert(l.target@ =~= Seq::<char>::empty());
    }
}

// ---- switches --------------------------------------------------------------

/// What the scene's main light has switched on.
#[derive(Clone, Copy, Debug, PartialEq, Eq, Structural)]
pub struct LightSwitches {
    pub shadows: bool,
    pub contact_shadows: bool,
    pub contact_steps: u32,
    pub reflections: bool,
    pub reflection_steps: u32,
    pub fog_shafts: bool,
    pub fog_steps: u32,
}

/// What a frame is shaded with.
#[derive(Clone, Copy, Debug, PartialEq, Eq, Structural)]
pub struct FrameSwitches {
    pub contact_shadows: bool,
    pub contact_steps: u32,
    pub reflections: bool,
    pub reflection_steps: u32,
    pub fog_shafts: bool,
    pub fog_steps: u32,
}

/// A number, kept between two others.
pub open spec fn between(n: u32, lo: u32, hi: u32) -> u32 {
    if n < lo {
        lo
    } else if n > hi {
        hi
    } else {
        n
    }
}

/// A number, kept between two others.
fn kept_between(n: u32, lo: u32, hi: u32) -> (out: u32)
    ensures
        out == between(n, lo, hi),
{
    if n < lo {
        lo
    } else if n > hi {
        hi
    } else {
        n
    }
}

/// What a frame is shaded with. Shadows of contact are shadows: they are off
/// where shadows are. Nothing is reflected until there is a picture (`primed`),
/// and no shafts are marched where no light is in the fog (`lit_fog`).
pub fn frame_switches(l: LightSwitches, primed: bool, lit_fog: bool) -> (out: FrameSwitches)
    ensures
        out == (FrameSwitches {
            contact_shadows: l.contact_shadows && l.shadows,
            contact_steps: between(l.contact_steps, 2, 32),
            reflections: l.reflections && primed,
            reflection_steps: between(l.reflection_steps, 8, 64),
            fog_shafts: l.fog_shafts && lit_fog,
            fog_steps: between(l.fog_steps, 2, 64),
        }),
{
    FrameSwitches {
        contact_shadows: l.contact_shadows && l.shadows,
        contact_steps: kept_between(l.contact_steps, 2, 32),
        reflections: l.reflections && primed,
        reflection_steps: kept_between(l.reflection_steps, 8, 64),
        fog_shafts: l.fog_shafts && lit_fog,
        fog_steps: kept_between(l.fog_steps, 2, 64),
    }
}

// ---- the textures of a material --------------------------------------------

/// The texture under a name.
pub open spec fn texture_under(registry: Map<Seq<char>, u64>, name: Option<String>) -> Option<u64> {
    match name {
        Some(n) => if registry.contains_key(n@) {
            Some(registry[n@])
        } else {
            None
        },
        None => None,
    }
}

/// The texture under a name.
fn find_texture(registry: &Table<u64>, name: &Option<String>) -> (out: Option<u64>)
    requires
        registry.wf(),
    ensures
        out == texture_under(registry@, *name),
{
    match name {
        Some(n) => match registry.get(n.as_str()) {
            Some(t) => Some(*t),
            None => None,
        },
        None => None,
    }
}

/// What a material is drawn with.
#[derive(Clone, Copy, Debug, PartialEq, Eq)]
pub enum MaterialTextures {
    /// One texture, or none.
    Plain(Option<u64>),
    /// A set: the texture, and the maps of the surface.
    Mapped { base: Option<u64>, maps: [Option<u64>; 4] },
}

/// What a material is drawn with: its own texture, or else `fallback`. One
/// without maps is drawn with that alone.
pub fn material_draw(
    registry: &Table<u64>,
    texture: &Option<String>,
    fallback: Option<u64>,
    has_maps: bool,
    maps: &[Option<String>; 4],
) -> (out: MaterialTextures)
    requires
        registry.wf(),
    ensures
        ({
            let own = texture_under(registry@, *texture);
            let base = match own {
                Some(t) => Some(t),
                None => fallback,
            };
            if has_maps {
                out matches MaterialTextures::Mapped { base: b, maps: m } && b == base
                    && forall|i: int|
                    0 <= i < 4 ==> #[trigger] m@[i] == texture_under(registry@, maps@[i])
            } else {
                out == MaterialTextures::Plain(base)
            }
        }),
{
    let base: Option<u64> = match find_texture(registry, texture) {
        Some(t) => Some(t),
        None => fallback,
    };
    if !has_maps {
        return MaterialTextures::Plain(base);
    }
    let m: [Option<u64>; 4] = [
        find_texture(registry, &maps[0]),
        find_texture(registry, &maps[1]),
        find_texture(registry, &maps[2]),
        find_texture(registry, &maps[3]),
    ];
    MaterialTextures::Mapped { base, maps: m }
}

/// A number that is kept between two others is one of them or itself, never outside, and
/// itself where it is between them already.
pub proof fn law_a_number_is_kept_between(n: u32, lo: u32, hi: u32)
    requires
        lo <= hi,
    ensures
        lo <= between(n, lo, hi) <= hi,
        lo <= n <= hi ==> between(n, lo, hi) == n,
        n < lo ==> between(n, lo, hi) == lo,
        n > hi ==> between(n, lo, hi) == hi,
{
}

/// A curve that there is not is the first one.
pub proof fn law_a_missing_curve_is_the_first(chosen: u32, curves: u32, out: u32)
    requires
        call_ensures(tonemap, (chosen, curves), out),
    ensures
        chosen < curves ==> out == chosen,
        chosen >= curves ==> out == 0,
        curves > 0 ==> out < curves,
{
}

/// Under water the fog is that of the water, whatever else is set; elsewhere it is as it is set,
/// and none has volume that is off.
pub proof fn law_water_has_its_own_fog(water: Option<usize>, fog: bool, volumetric: bool, out: Fog)
    requires
        call_ensures(fog_at, (water, fog, volumetric), out),
    ensures
        out is Water <==> water is Some,
        out matches Fog::Water { volume } ==> water == Some(volume),
        out is Volumetric <==> water is None && fog && volumetric,
        out matches Fog::Distance { on } ==> on == fog,
{
}

/// Nothing is switched on that a light does not ask for, or that lacks what it needs; every
/// number of steps lies within its own bounds and is kept where it already does.
pub proof fn law_nothing_is_switched_on_unasked(l: LightSwitches, primed: bool, lit_fog: bool, out: FrameSwitches)
    requires
        call_ensures(frame_switches, (l, primed, lit_fog), out),
    ensures
        out.contact_shadows <==> l.contact_shadows && l.shadows,
        out.reflections <==> l.reflections && primed,
        out.fog_shafts <==> l.fog_shafts && lit_fog,
        2 <= out.contact_steps <= 32,
        8 <= out.reflection_steps <= 64,
        2 <= out.fog_steps <= 64,
        2 <= l.contact_steps <= 32 ==> out.contact_steps == l.contact_steps,
        8 <= l.reflection_steps <= 64 ==> out.reflection_steps == l.reflection_steps,
        2 <= l.fog_steps <= 64 ==> out.fog_steps == l.fog_steps,
{
}

/// The picture is focused on a node that the first lens names that focuses at all, and that is
/// switched on; where there is none of that name it is focused on none.
pub proof fn law_the_first_lens_says_where_to_focus(
    lenses: &Vec<FocusLens>,
    nodes: &Vec<NamedNode>,
    out: Option<usize>,
    l: int,
    j: int,
)
    requires
        call_ensures(focus_node, (lenses, nodes), out),
        is_focusing(lenses@, l),
        0 <= j < nodes@.len(),
    ensures
        out matches Some(i) ==> nodes@[i as int].name@ == lenses@[l].target@
            && !nodes@[i as int].disabled,
        nodes@[j].name@ == lenses@[l].target@ && !nodes@[j].disabled ==> out is Some && out->Some_0
            <= j,
{
    match out {
        Some(i) => {
            let k = choose|k: int| #[trigger]
                is_focusing(lenses@, k) && is_target(nodes@, lenses@[k].target@, i as int);
            assert(k == l) by {
                if k < l {
                    assert(!focuses(lenses@[k]));
                } else if l < k {
                    assert(!focuses(lenses@[l]));
                }
            }
        },
        None => {
            if !no_focus(lenses@) {
                let k = choose|k: int| #[trigger]
                    is_focusing(lenses@, k) && no_target(nodes@, lenses@[k].target@);
                assert(k == l) by {
                    if k < l {
                        assert(!focuses(lenses@[k]));
                    } else if l < k {
                        assert(!focuses(lenses@[l]));
                    }
                }
            } else {
                assert(!focuses(lenses@[l]));
            }
        },
    }
}

/// Water that is switched on is told of, and no other.
pub proof fn law_water_that_is_off_is_not_told(waters: &Vec<Water>, out: Vec<Water>, w: Water)
    requires
        call_ensures(water_infos, (waters,), out),
    ensures
        out@.contains(w) <==> waters@.contains(w) && !w.disabled,
{
    lemma_filter_holds(waters@, |x: Water| !x.disabled, w);
}

/// A texture is found under its own name alone. A material has its own where there is one, else
/// the fallback; it is mapped exactly where it has maps.
pub proof fn law_a_material_has_its_own_texture_first(
    registry: &Table<u64>,
    texture: &Option<String>,
    fallback: Option<u64>,
    has_maps: bool,
    maps: &[Option<String>; 4],
    out: MaterialTextures,
)
    requires
        registry.wf(),
        call_ensures(material_draw, (registry, texture, fallback, has_maps, maps), out),
    ensures
        ({
            let own = texture is Some && registry@.contains_key(texture->Some_0@);
            let base = match out {
                MaterialTextures::Mapped { base, .. } => base,
                MaterialTextures::Plain(base) => base,
            };
            &&& out is Mapped <==> has_maps
            &&& own ==> base == Some(registry@[texture->Some_0@])
            &&& !own ==> base == fallback
        }),
{
}

/// No star lights a scene that is not lit by stars, and nothing casts a shadow where shadows are
/// off.
pub proof fn law_what_is_off_lights_and_shades_nothing(
    brightness: &Vec<Largest>,
    stars_out: Vec<usize>,
    bodies: &Vec<ShadowNode>,
    solids: &Vec<ShadowNode>,
    proxies: Vec<Proxy>,
)
    requires
        call_ensures(stars, (false, brightness), stars_out),
        call_ensures(collect_shadow_proxies, (bodies, solids, false), proxies),
    ensures
        stars_out@.len() == 0,
        proxies@.len() == 0,
{
}

/// The first lens that is switched on is used, where it has effects; of the two ways to darken
/// corners at most one is.
pub proof fn law_the_first_lens_is_used(
    nodes: &Vec<SceneNode>,
    effects: &Vec<(bool, AoMode)>,
    out: Lens,
    i: int,
)
    requires
        effects@.len() == nodes@.len(),
        call_ensures(post_process, (nodes, effects), out),
        is_first_on(nodes@, i),
    ensures
        out is On <==> effects@[i].0,
        out matches Lens::On { node, ssao, sdf_ao } ==> node == i && !(ssao && sdf_ao) && (ssao
            <==> effects@[i].1 is ScreenSpace) && (sdf_ao <==> effects@[i].1 is Sdf),
{
    match out {
        Lens::On { node, .. } => {
            lemma_one_first(nodes@, node as int, i);
        },
        Lens::Off => {
            if none_on(nodes@) {
                assert(!(nodes@[i].is_one && !nodes@[i].disabled));
            } else {
                let k = choose|k: int| #[trigger] is_first_on(nodes@, k) && !effects@[k].0;
                lemma_one_first(nodes@, k, i);
            }
        },
    }
}

/// There is one first that is switched on.
proof fn lemma_one_first(nodes: Seq<SceneNode>, i: int, j: int)
    requires
        is_first_on(nodes, i),
        is_first_on(nodes, j),
    ensures
        i == j,
{
    if i < j {
        assert(nodes[i] == nodes[i]);
    } else if j < i {
        assert(nodes[j] == nodes[j]);
    }
}

/// The sky is that of the first node that is switched on, and dark where there is none.
pub proof fn law_the_first_sky_is_shown(
    nodes: &Vec<SceneNode>,
    textured: &Vec<bool>,
    out: Sky,
    j: int,
)
    requires
        textured@.len() == nodes@.len(),
        call_ensures(skybox, (nodes, textured), out),
        0 <= j < nodes@.len(),
    ensures
        nodes@[j].is_one && !nodes@[j].disabled ==> out is Of && out->node <= j,
        out matches Sky::Of { node, textured: t } ==> nodes@[node as int].is_one
            && !nodes@[node as int].disabled && t == textured@[node as int],
{
    match out {
        Sky::Of { node, .. } => assert(is_first_on(nodes@, node as int)),
        Sky::Dark => assert(none_on(nodes@)),
    }
}

/// A texture is found under its own name, and another name never changes that.
pub proof fn law_a_texture_is_found_under_its_name(
    registry: Map<Seq<char>, u64>,
    name: String,
    other: Seq<char>,
    texture: u64,
)
    ensures
        texture_under(registry.insert(name@, texture), Some(name)) == Some(texture),
        other != name@ ==> texture_under(registry.insert(other, texture), Some(name))
            == texture_under(registry, Some(name)),
        texture_under(registry, None) is None,
        texture_under(registry.remove(name@), Some(name)) is None,
{
}

} // verus!
