//! Shader materials: which shaders a scene needs, what each of them compiled to
//! last, and which slot of the graphics pass each node's material holds.
//!
//! Files, the compiler and the graphics device are outside. This module decides
//! what has to be done with them, and keeps what came of it. A broken edit keeps
//! the last good shader running and is reported once.

use crate::lists::{is_among, lemma_filter_holds, lemma_filter_step};
use crate::order::{are_places, comes_first, in_order, sorted_places, Name, Rank};
use crate::text::{
    append_chars, chars_of, copy_of, decimal, decimal_of, decimal_text, find, index_of, is_digit,
    joined, law_a_number_can_be_read_back, law_numbers_are_read_up_to_the_bound,
    law_texts_are_in_order, lemma_index_of, number_in, occurs, occurs_at, parse_number, same_text, text_before, text_of, texts,
};
use crate::script_meta::{first_line, opt_text};
use crate::table::Table;
use vstd::prelude::*;
use vstd::slice::slice_subrange;

verus! {

// ---- which shaders ---------------------------------------------------------

/// Do these texts stand in order, and none of them twice?
pub open spec fn strictly_rising(s: Seq<Seq<char>>) -> bool {
    forall|i: int, j: int|
        0 <= i < j < s.len() ==> text_before(#[trigger] s[i], #[trigger] s[j])
}

/// Do two lists hold the same texts?
pub open spec fn same_members(a: Seq<Seq<char>>, b: Seq<Seq<char>>) -> bool {
    forall|t: Seq<char>| #[trigger] a.contains(t) <==> b.contains(t)
}

/// The paths that are named, each of them once and in order.
pub fn distinct_paths(named: Vec<String>) -> (out: Vec<String>)
    ensures
        strictly_rising(texts(out@)),
        same_members(texts(out@), texts(named@)),
{
    let mut names: Vec<Name> = Vec::new();
    let mut i: usize = 0;
    while i < named.len()
        invariant
            i <= named.len(),
            names@.len() == i,
            forall|k: int| 0 <= k < i ==> (#[trigger] names@[k]).text@ == named@[k]@,
        decreases named.len() - i,
    {
        names.push(Name { text: copy_of(named[i].as_str()) });
        i += 1;
    }
    let order: Vec<usize> = sorted_places(&names);
    let mut out: Vec<String> = Vec::new();
    let mut k: usize = 0;
    while k < order.len()
        invariant
            k <= order.len(),
            are_places(order@, named@.len()),
            in_order(names@, order@),
            names@.len() == named@.len(),
            forall|p: int| 0 <= p < names@.len() ==> (#[trigger] names@[p]).text@ == named@[p]@,
            strictly_rising(texts(out@)),
            k > 0 ==> out@.len() > 0 && texts(out@).last() == named@[order@[k - 1] as int]@,
            k == 0 ==> out@.len() == 0,
            forall|p: int|
                0 <= p < k ==> texts(out@).contains(named@[(#[trigger] order@[p]) as int]@),
            forall|q: int|
                0 <= q < out@.len() ==> texts(named@).contains(#[trigger] texts(out@)[q]),
        decreases order.len() - k,
    {
        let at: usize = order[k];
        let text: &str = named[at].as_str();
        let ghost was = texts(out@);
        let again: bool = if out.len() > 0 {
            same_text(out[out.len() - 1].as_str(), text)
        } else {
            false
        };
        if !again {
            proof {
                if k > 0 {
                    let last = order@[k - 1] as int;
                    assert(comes_first(names@, last, at as int));
                    crate::order::lemma_text_order(
                        names@[last].text@,
                        names@[at as int].text@,
                        names@[last].text@,
                    );
                    assert(text_before(was.last(), text@));
                    assert forall|q: int| 0 <= q < was.len() implies text_before(
                        #[trigger] was[q],
                        text@,
                    ) by {
                        if q < was.len() - 1 {
                            assert(text_before(was[q], was[was.len() - 1]));
                            lemma_text_chain(was[q], was.last(), text@);
                        }
                    }
                }
            }
            out.push(copy_of(text));
            assert(texts(out@) =~= was.push(text@));
            proof {
                assert(texts(named@)[at as int] == text@);
                assert forall|p: int| 0 <= p < k + 1 implies texts(out@).contains(
                    named@[(#[trigger] order@[p]) as int]@,
                ) by {
                    if p < k {
                        let q = choose|q: int|
                            0 <= q < was.len() && was[q] == named@[order@[p] as int]@;
                        assert(texts(out@)[q] == was[q]);
                    } else {
                        assert(texts(out@)[was.len() as int] == text@);
                    }
                }
                assert forall|q: int| 0 <= q < out@.len() implies texts(named@).contains(
                    #[trigger] texts(out@)[q],
                ) by {
                    if q < was.len() {
                        assert(texts(named@).contains(was[q]));
                    }
                }
            }
        } else {
            proof {
                assert(was[was.len() - 1] == text@);
            }
        }
        k += 1;
    }
    proof {
        assert forall|t: Seq<char>| #[trigger] texts(out@).contains(t) <==> texts(
            named@,
        ).contains(t) by {
            if texts(named@).contains(t) {
                let p = choose|p: int| 0 <= p < named@.len() && texts(named@)[p] == t;
                crate::order::lemma_place_is_there(order@, named@.len(), p);
                let i = choose|i: int|
                    #![trigger order@[i]]
                    0 <= i < named@.len() && order@[i] == p;
                assert(texts(out@).contains(named@[order@[i] as int]@));
            }
        }
    }
    out
}

/// `text_before` goes on from one text to the next.
proof fn lemma_text_chain(a: Seq<char>, b: Seq<char>, c: Seq<char>)
    requires
        text_before(a, b),
        text_before(b, c),
    ensures
        text_before(a, c),
{
    crate::order::lemma_text_order(a, b, c);
    crate::order::lemma_text_order(b, a, c);
    crate::order::lemma_text_order(c, b, a);
    crate::order::lemma_text_order(a, c, b);
    if !text_before(a, c) {
        if !text_before(c, a) {
            crate::order::lemma_text_order(a, c, a);
            assert(a == c);
        } else {
            crate::order::lemma_text_order(b, c, a);
            crate::order::lemma_text_order(c, a, b);
        }
    }
}

// ---- the slots of materials ------------------------------------------------

/// What a node's material is to be drawn with.
pub struct Plan {
    pub entity: u64,
    pub shader: u64,
    pub params: Vec<u8>,
    pub textures: Vec<Option<u64>>,
}

/// One node's slot in the graphics pass, and what it was filled from.
pub struct MatBind {
    pub entity: u64,
    pub binding: u64,
    pub shader: u64,
    pub params: Vec<u8>,
    pub textures: Vec<Option<u64>>,
}

/// A [`MatBind`] as plain data.
#[verifier::ext_equal]
pub struct BindModel {
    pub entity: u64,
    pub binding: u64,
    pub shader: u64,
    pub params: Seq<u8>,
    pub textures: Seq<Option<u64>>,
}

impl View for MatBind {
    type V = BindModel;

    open spec fn view(&self) -> BindModel {
        BindModel {
            entity: self.entity,
            binding: self.binding,
            shader: self.shader,
            params: self.params@,
            textures: self.textures@,
        }
    }
}

/// The slots that are in use, and those that have been given back.
pub struct Bindings {
    pub live: Vec<MatBind>,
    pub free: Vec<u64>,
}

/// [`Bindings`] as plain data.
#[verifier::ext_equal]
pub struct BindingsModel {
    pub live: Seq<BindModel>,
    pub free: Seq<u64>,
}

/// The binds of `v` as plain data.
pub open spec fn bind_models(v: Seq<MatBind>) -> Seq<BindModel> {
    v.map_values(|b: MatBind| b@)
}

impl View for Bindings {
    type V = BindingsModel;

    open spec fn view(&self) -> BindingsModel {
        BindingsModel { live: bind_models(self.live@), free: self.free@ }
    }
}

/// What has to be done so that a node's slot holds what its plan says.
#[derive(Clone, Copy, Debug, PartialEq, Eq)]
pub enum BindAction {
    /// Nothing.
    Keep,
    /// Write the params to this slot.
    WriteParams { binding: u64 },
    /// Fill this slot anew.
    Rebuild { binding: u64 },
    /// Fill a slot: this one, which was given back, or else a new one.
    Create { reuse: Option<u64> },
}

/// Has each node one bind at most?
pub open spec fn each_node_once(live: Seq<BindModel>) -> bool {
    forall|i: int, j: int|
        0 <= i < j < live.len() ==> (#[trigger] live[i]).entity != (#[trigger] live[j]).entity
}

/// The place of the node's bind among `live`, or their number.
pub open spec fn bind_place(live: Seq<BindModel>, entity: u64) -> int
    decreases live.len(),
{
    if live.len() == 0 {
        0
    } else if live[0].entity == entity {
        0
    } else {
        1 + bind_place(live.skip(1), entity)
    }
}

/// What a plan calls for.
pub open spec fn action_for(
    m: BindingsModel,
    entity: u64,
    shader: u64,
    params: Seq<u8>,
    textures: Seq<Option<u64>>,
) -> BindAction {
    let i = bind_place(m.live, entity);
    if i < m.live.len() {
        let b = m.live[i];
        if b.shader == shader && b.textures == textures {
            if b.params == params {
                BindAction::Keep
            } else {
                BindAction::WriteParams { binding: b.binding }
            }
        } else {
            BindAction::Rebuild { binding: b.binding }
        }
    } else {
        BindAction::Create {
            reuse: if m.free.len() > 0 {
                Some(m.free.last())
            } else {
                None
            },
        }
    }
}

/// The slots once a node's slot is `b`.
pub open spec fn with_bind(live: Seq<BindModel>, b: BindModel) -> Seq<BindModel> {
    let i = bind_place(live, b.entity);
    if i < live.len() {
        live.update(i, b)
    } else {
        live.push(b)
    }
}

/// Are two runs of bytes the same?
fn same_bytes(a: &Vec<u8>, b: &Vec<u8>) -> (out: bool)
    ensures
        out == (a@ == b@),
{
    if a.len() != b.len() {
        return false;
    }
    let mut i: usize = 0;
    while i < a.len()
        invariant
            i <= a.len(),
            a.len() == b.len(),
            forall|j: int| 0 <= j < i ==> a@[j] == b@[j],
        decreases a.len() - i,
    {
        if a[i] != b[i] {
            return false;
        }
        i += 1;
    }
    assert(a@ =~= b@);
    true
}

/// Are two rows of textures the same?
fn same_textures(a: &Vec<Option<u64>>, b: &Vec<Option<u64>>) -> (out: bool)
    ensures
        out == (a@ == b@),
{
    if a.len() != b.len() {
        return false;
    }
    let mut i: usize = 0;
    while i < a.len()
        invariant
            i <= a.len(),
            a.len() == b.len(),
            forall|j: int| 0 <= j < i ==> a@[j] == b@[j],
        decreases a.len() - i,
    {
        let equal: bool = match (a[i], b[i]) {
            (Some(x), Some(y)) => x == y,
            (None, None) => true,
            _ => false,
        };
        if !equal {
            return false;
        }
        i += 1;
    }
    assert(a@ =~= b@);
    true
}

impl Bindings {
    /// Each node has one slot at most.
    pub open spec fn wf(&self) -> bool {
        each_node_once(self@.live)
    }

    /// No slots.
    pub fn new() -> (out: Self)
        ensures
            out.wf(),
            out@ == (BindingsModel { live: seq![], free: seq![] }),
    {
        let out: Bindings = Bindings { live: Vec::new(), free: Vec::new() };
        assert(out@ =~= (BindingsModel { live: seq![], free: seq![] }));
        out
    }

    /// The place of the node's bind, or the number of binds.
    fn place_of(&self, entity: u64) -> (out: usize)
        ensures
            out == bind_place(self@.live, entity),
            out <= self.live@.len(),
            out < self.live@.len() ==> self.live@[out as int].entity == entity,
    {
        let ghost all = self@.live;
        let mut i: usize = 0;
        assert(all.skip(0) =~= all);
        while i < self.live.len() && self.live[i].entity != entity
            invariant
                i <= self.live.len(),
                all == self@.live,
                bind_place(all, entity) == i + bind_place(all.skip(i as int), entity),
            decreases self.live.len() - i,
        {
            assert(all.skip(i as int).skip(1) =~= all.skip(i + 1));
            i += 1;
        }
        i
    }

    /// What `plan` calls for. New params are noted here; a slot that is to be
    /// filled is noted by [`Bindings::bound`], once it is known which it is. A
    /// slot that is to be used again is no longer free.
    pub fn want(&mut self, plan: &Plan) -> (out: BindAction)
        requires
            old(self).wf(),
        ensures
            final(self).wf(),
            out == action_for(
                old(self)@,
                plan.entity,
                plan.shader,
                plan.params@,
                plan.textures@,
            ),
            match out {
                BindAction::WriteParams { binding } => final(self)@ == (BindingsModel {
                    live: with_bind(
                        old(self)@.live,
                        BindModel {
                            entity: plan.entity,
                            binding,
                            shader: plan.shader,
                            params: plan.params@,
                            textures: plan.textures@,
                        },
                    ),
                    free: old(self)@.free,
                }),
                BindAction::Create { reuse: Some(_) } => final(self)@ == (BindingsModel {
                    live: old(self)@.live,
                    free: old(self)@.free.drop_last(),
                }),
                _ => final(self)@ == old(self)@,
            },
    {
        let i: usize = self.place_of(plan.entity);
        if i >= self.live.len() {
            let reuse: Option<u64> = self.free.pop();
            return BindAction::Create { reuse };
        }
        let binding: u64 = self.live[i].binding;
        let fits: bool = self.live[i].shader == plan.shader && same_textures(
            &self.live[i].textures,
            &plan.textures,
        );
        if !fits {
            return BindAction::Rebuild { binding };
        }
        if same_bytes(&self.live[i].params, &plan.params) {
            return BindAction::Keep;
        }
        let ghost was = self.live@;
        let mut params: Vec<u8> = Vec::new();
        let mut textures: Vec<Option<u64>> = Vec::new();
        let mut k: usize = 0;
        while k < plan.params.len()
            invariant
                k <= plan.params.len(),
                params@ == plan.params@.take(k as int),
            decreases plan.params.len() - k,
        {
            params.push(plan.params[k]);
            k += 1;
        }
        let mut t: usize = 0;
        while t < plan.textures.len()
            invariant
                t <= plan.textures.len(),
                textures@ == plan.textures@.take(t as int),
            decreases plan.textures.len() - t,
        {
            textures.push(plan.textures[t]);
            t += 1;
        }
        let bind: MatBind = MatBind {
            entity: plan.entity,
            binding,
            shader: plan.shader,
            params,
            textures,
        };
        assert(bind@.params =~= plan.params@ && bind@.textures =~= plan.textures@);
        self.live[i] = bind;
        assert(bind_models(self.live@) =~= bind_models(was).update(i as int, bind@));
        proof {
            lemma_bound_once(bind_models(was), bind@);
        }
        BindAction::WriteParams { binding }
    }

    /// Notes that the slot `binding` was filled as `plan` says.
    pub fn bound(&mut self, plan: Plan, binding: u64)
        requires
            old(self).wf(),
        ensures
            final(self).wf(),
            final(self)@ == (BindingsModel {
                live: with_bind(
                    old(self)@.live,
                    BindModel {
                        entity: plan.entity,
                        binding,
                        shader: plan.shader,
                        params: plan.params@,
                        textures: plan.textures@,
                    },
                ),
                free: old(self)@.free,
            }),
    {
        let i: usize = self.place_of(plan.entity);
        let ghost was = self.live@;
        let bind: MatBind = MatBind {
            entity: plan.entity,
            binding,
            shader: plan.shader,
            params: plan.params,
            textures: plan.textures,
        };
        proof {
            lemma_bound_once(bind_models(was), bind@);
        }
        if i < self.live.len() {
            self.live[i] = bind;
            assert(bind_models(self.live@) =~= bind_models(was).update(i as int, bind@));
        } else {
            self.live.push(bind);
            assert(bind_models(self.live@) =~= bind_models(was).push(bind@));
        }
    }

    /// Gives back the slots of the binds that are not marked to be kept.
    fn release(&mut self, kept: &Vec<bool>, Ghost(keep): Ghost<spec_fn(BindModel) -> bool>)
        requires
            kept@.len() == old(self).live@.len(),
            forall|k: int|
                0 <= k < kept@.len() ==> #[trigger] kept@[k] == keep(old(self)@.live[k]),
        ensures
            final(self)@ == released(old(self)@, keep),
    {
        let ghost drop = |b: BindModel| !keep(b);
        let ghost all = self@.live;
        let ghost free = self.free@;
        let mut j: usize = 0;
        let mut i: usize = 0;
        proof {
            reveal(Seq::filter);
            assert(all.skip(0) =~= all);
            assert(self@.live =~= all.take(0).filter(keep) + all.skip(0));
            assert(self.free@ =~= free + slots_of(all.take(0).filter(drop)));
        }
        while j < kept.len()
            invariant
                drop == (|b: BindModel| !keep(b)),
                kept@.len() == all.len(),
                forall|k: int| 0 <= k < kept@.len() ==> #[trigger] kept@[k] == keep(all[k]),
                0 <= j <= all.len(),
                i == all.take(j as int).filter(keep).len(),
                self@.live == all.take(j as int).filter(keep) + all.skip(j as int),
                self.free@ == free + slots_of(all.take(j as int).filter(drop)),
            decreases all.len() - j,
        {
            proof {
                assert(self@.live.len() == i + (all.len() - j));
                assert(self@.live[i as int] == all[j as int]);
                lemma_filter_step(all, j as int, keep);
                lemma_filter_step(all, j as int, drop);
            }
            let ghost was = self.live@;
            if kept[j] {
                assert(self@.live =~= all.take(j + 1).filter(keep) + all.skip(j + 1));
                i += 1;
            } else {
                let b: MatBind = self.live.remove(i);
                self.free.push(b.binding);
                proof {
                    assert(bind_models(self.live@) =~= bind_models(was).remove(i as int));
                    assert(self@.live =~= all.take(j + 1).filter(keep) + all.skip(j + 1));
                    assert(slots_of(all.take(j + 1).filter(drop)) =~= slots_of(
                        all.take(j as int).filter(drop),
                    ).push(b.binding));
                }
            }
            j += 1;
        }
        proof {
            assert(all.take(j as int) =~= all);
            assert(self@.live =~= all.filter(keep));
        }
    }

    /// Gives back the slot of every node that is not among `seen`.
    pub fn release_stale(&mut self, seen: &Vec<u64>)
        requires
            old(self).wf(),
        ensures
            final(self).wf(),
            final(self)@ == released(old(self)@, |b: BindModel| seen@.contains(b.entity)),
    {
        let mut kept: Vec<bool> = Vec::new();
        let mut i: usize = 0;
        while i < self.live.len()
            invariant
                i <= self.live.len(),
                kept@.len() == i,
                *self == *old(self),
                forall|k: int|
                    0 <= k < i ==> #[trigger] kept@[k] == seen@.contains(self.live@[k].entity),
            decreases self.live.len() - i,
        {
            kept.push(is_among(seen, self.live[i].entity));
            i += 1;
        }
        let ghost keep = |b: BindModel| seen@.contains(b.entity);
        proof {
            lemma_kept_once(self@.live, keep);
        }
        self.release(&kept, Ghost(keep));
    }

    /// Gives back every slot that is filled for `shader`, which has changed.
    pub fn retire(&mut self, shader: u64)
        requires
            old(self).wf(),
        ensures
            final(self).wf(),
            final(self)@ == released(old(self)@, |b: BindModel| b.shader != shader),
    {
        let mut kept: Vec<bool> = Vec::new();
        let mut i: usize = 0;
        while i < self.live.len()
            invariant
                i <= self.live.len(),
                kept@.len() == i,
                *self == *old(self),
                forall|k: int|
                    0 <= k < i ==> #[trigger] kept@[k] == (self.live@[k].shader != shader),
            decreases self.live.len() - i,
        {
            kept.push(self.live[i].shader != shader);
            i += 1;
        }
        let ghost keep = |b: BindModel| b.shader != shader;
        proof {
            lemma_kept_once(self@.live, keep);
        }
        self.release(&kept, Ghost(keep));
    }
}

/// The slots of some binds.
pub open spec fn slots_of(binds: Seq<BindModel>) -> Seq<u64> {
    binds.map_values(|b: BindModel| b.binding)
}

/// The slots once those are given back whose bind is not to be kept.
pub open spec fn released(m: BindingsModel, keep: spec_fn(BindModel) -> bool) -> BindingsModel {
    BindingsModel {
        live: m.live.filter(keep),
        free: m.free + slots_of(m.live.filter(|b: BindModel| !keep(b))),
    }
}

/// Every slot there is, in use or free.
pub open spec fn all_slots(m: BindingsModel) -> vstd::multiset::Multiset<u64> {
    slots_of(m.live).to_multiset().add(m.free.to_multiset())
}

/// Filtering in two halves loses nothing and doubles nothing.
proof fn lemma_filter_halves(s: Seq<BindModel>, keep: spec_fn(BindModel) -> bool)
    ensures
        slots_of(s).to_multiset() == slots_of(s.filter(keep)).to_multiset().add(
            slots_of(s.filter(|b: BindModel| !keep(b))).to_multiset(),
        ),
    decreases s.len(),
{
    broadcast use vstd::seq_lib::group_to_multiset_ensures;

    let drop = |b: BindModel| !keep(b);
    reveal(Seq::filter);
    if s.len() > 0 {
        let front = s.drop_last();
        lemma_filter_halves(front, keep);
        let last = s.last().binding;
        assert(slots_of(s) =~= slots_of(front).push(last));
        if keep(s.last()) {
            assert(slots_of(s.filter(keep)) =~= slots_of(front.filter(keep)).push(last));
        } else {
            assert(slots_of(s.filter(drop)) =~= slots_of(front.filter(drop)).push(last));
        }
        assert(slots_of(s).to_multiset() =~= slots_of(s.filter(keep)).to_multiset().add(
            slots_of(s.filter(drop)).to_multiset(),
        ));
    } else {
        assert(slots_of(s) =~= seq![]);
        assert(slots_of(s.filter(keep)) =~= seq![]);
        assert(slots_of(s.filter(drop)) =~= seq![]);
        assert(Seq::<u64>::empty().to_multiset() =~= Seq::<u64>::empty().to_multiset().add(
            Seq::<u64>::empty().to_multiset(),
        ));
    }
}

/// Giving slots back loses none of them, and makes none of them twice.
pub proof fn law_slots_are_kept(m: BindingsModel, keep: spec_fn(BindModel) -> bool)
    ensures
        all_slots(released(m, keep)) == all_slots(m),
{
    broadcast use vstd::seq_lib::group_to_multiset_ensures;

    lemma_filter_halves(m.live, keep);
    let dropped = slots_of(m.live.filter(|b: BindModel| !keep(b)));
    vstd::seq_lib::lemma_multiset_commutative(m.free, dropped);
    assert(all_slots(released(m, keep)) =~= all_slots(m));
}

/// A frame in which nothing changed asks for nothing: once a slot was filled as
/// a plan says, the same plan calls for nothing more.
pub proof fn law_an_unchanged_plan_asks_for_nothing(m: BindingsModel, b: BindModel)
    ensures
        action_for(
            BindingsModel { live: with_bind(m.live, b), free: m.free },
            b.entity,
            b.shader,
            b.params,
            b.textures,
        ) == BindAction::Keep,
{
    let i = bind_place(m.live, b.entity);
    lemma_bind_place(m.live, b.entity);
    let after = with_bind(m.live, b);
    lemma_bind_place(after, b.entity);
    let j = bind_place(after, b.entity);
    if i < m.live.len() {
        assert(after[i].entity == b.entity);
        if j < i {
            assert(after[j] == m.live[j]);
        }
    } else {
        assert(after[i] == b);
        if j < i {
            assert(after[j] == m.live[j]);
        }
    }
}

/// A node whose slot is filled anew still has one.
proof fn lemma_bound_once(live: Seq<BindModel>, b: BindModel)
    requires
        each_node_once(live),
    ensures
        each_node_once(with_bind(live, b)),
{
    lemma_bind_place(live, b.entity);
}

/// Slots that are given back leave each node one at most.
proof fn lemma_kept_once(live: Seq<BindModel>, keep: spec_fn(BindModel) -> bool)
    requires
        each_node_once(live),
    ensures
        each_node_once(live.filter(keep)),
    decreases live.len(),
{
    reveal(Seq::filter);
    if live.len() > 0 {
        let front = live.drop_last();
        lemma_kept_once(front, keep);
        let kept = front.filter(keep);
        assert forall|i: int| 0 <= i < kept.len() implies (#[trigger] kept[i]).entity
            != live.last().entity by {
            front.lemma_filter_contains_rev(keep, kept[i]);
            let k = choose|k: int| 0 <= k < front.len() && front[k] == kept[i];
            assert(live[k].entity != live[live.len() - 1].entity);
        }
    }
}

/// However slots are filled and given back, no node has two: each of the ways in
/// which they change keeps that.
pub proof fn law_no_node_has_two_slots(
    m: BindingsModel,
    b: BindModel,
    keep: spec_fn(BindModel) -> bool,
)
    requires
        each_node_once(m.live),
    ensures
        each_node_once(with_bind(m.live, b)),
        each_node_once(released(m, keep).live),
{
    lemma_bound_once(m.live, b);
    lemma_kept_once(m.live, keep);
}

/// `bind_place` is the first place that the node holds.
proof fn lemma_bind_place(live: Seq<BindModel>, entity: u64)
    ensures
        0 <= bind_place(live, entity) <= live.len(),
        bind_place(live, entity) < live.len() ==> live[bind_place(live, entity)].entity == entity,
        forall|j: int|
            0 <= j < bind_place(live, entity) ==> (#[trigger] live[j]).entity != entity,
        forall|j: int|
            0 <= j < live.len() && (#[trigger] live[j]).entity == entity ==> bind_place(
                live,
                entity,
            ) <= j,
    decreases live.len(),
{
    if live.len() > 0 && live[0].entity != entity {
        lemma_bind_place(live.skip(1), entity);
        assert forall|j: int| 0 <= j < bind_place(live, entity) implies (#[trigger] live[j]).entity
            != entity by {
            if j > 0 {
                assert(live.skip(1)[j - 1] == live[j]);
            }
        }
        assert forall|j: int|
            0 <= j < live.len() && (#[trigger] live[j]).entity == entity implies bind_place(
            live,
            entity,
        ) <= j by {
            assert(live.skip(1)[j - 1] == live[j]);
        }
    }
}

/// A node keeps its slot: nothing is done where its plan is what the slot holds, the params
/// are written where they alone differ, and the slot is filled anew where the shader or a
/// texture does. Always it is the node's own slot.
pub proof fn law_a_node_keeps_its_slot(
    m: BindingsModel,
    i: int,
    shader: u64,
    params: Seq<u8>,
    textures: Seq<Option<u64>>,
)
    requires
        each_node_once(m.live),
        0 <= i < m.live.len(),
    ensures
        ({
            let b = m.live[i];
            let act = action_for(m, b.entity, shader, params, textures);
            let same = b.shader == shader && b.textures == textures;
            &&& act is Keep <==> same && b.params == params
            &&& act is WriteParams <==> same && b.params != params
            &&& act is Rebuild <==> !same
            &&& !(act is Create)
            &&& act matches BindAction::WriteParams { binding } ==> binding == b.binding
            &&& act matches BindAction::Rebuild { binding } ==> binding == b.binding
        }),
{
    let entity = m.live[i].entity;
    lemma_bind_place(m.live, entity);
    let k = bind_place(m.live, entity);
    assert(k <= i);
    assert(k == i);
}

/// A node without a slot gets one: the one that was given back last, or a new one where none
/// is free.
pub proof fn law_a_node_without_a_slot_gets_one(
    m: BindingsModel,
    entity: u64,
    shader: u64,
    params: Seq<u8>,
    textures: Seq<Option<u64>>,
)
    requires
        forall|i: int| 0 <= i < m.live.len() ==> (#[trigger] m.live[i]).entity != entity,
    ensures
        action_for(m, entity, shader, params, textures) matches BindAction::Create { reuse }
            && (reuse is None <==> m.free.len() == 0) && (reuse is Some ==> reuse == Some(
            m.free.last(),
        )),
{
    lemma_bind_place(m.live, entity);
}

/// A slot that was filled is the node's slot, and every other node keeps the one it had.
pub proof fn law_filling_a_slot_touches_one_node(live: Seq<BindModel>, b: BindModel, o: BindModel)
    requires
        each_node_once(live),
        o.entity != b.entity,
    ensures
        with_bind(live, b).contains(b),
        with_bind(live, b).contains(o) <==> live.contains(o),
{
    lemma_bind_place(live, b.entity);
    let i = bind_place(live, b.entity);
    let now = with_bind(live, b);
    assert(now[if i < live.len() {
        i
    } else {
        live.len() as int
    }] == b);
    if live.contains(o) {
        let k = choose|k: int| 0 <= k < live.len() && live[k] == o;
        assert(now[k] == o);
    }
    if now.contains(o) {
        let k = choose|k: int| 0 <= k < now.len() && now[k] == o;
        assert(live[k] == o);
    }
}

/// What is to be kept stays, what is not is gone, and its slot is free behind those that were.
pub proof fn law_what_is_not_kept_is_given_back(
    m: BindingsModel,
    keep: spec_fn(BindModel) -> bool,
    b: BindModel,
)
    ensures
        released(m, keep).live.contains(b) <==> m.live.contains(b) && keep(b),
        m.free.is_prefix_of(released(m, keep).free),
        m.live.contains(b) && !keep(b) ==> released(m, keep).free.contains(b.binding),
{
    let drop = |b: BindModel| !keep(b);
    lemma_filter_holds(m.live, keep, b);
    lemma_filter_holds(m.live, drop, b);
    let gone = m.live.filter(drop);
    if m.live.contains(b) && !keep(b) {
        let k = choose|k: int| 0 <= k < gone.len() && gone[k] == b;
        assert(slots_of(gone)[k] == b.binding);
        assert(released(m, keep).free[m.free.len() + k] == b.binding);
    }
}

// ---- what each shader compiled to ------------------------------------------

/// A shader that compiled: its number in the graphics pass, and the names of its
/// texture slots.
pub struct CompiledShader {
    pub shader: u64,
    pub textures: Vec<String>,
}

/// What is known of one shader file.
pub struct FlslEntry {
    /// When the file was last changed, as far as that is known.
    pub stamp: Option<i128>,
    /// The last good compile. It is kept while `error` reports a newer failure.
    pub compiled: Option<CompiledShader>,
    /// The newest failure.
    pub error: Option<String>,
}

/// What is known of one shader file that shapes the scene's field.
pub struct SdfEntry {
    /// When the file was last changed, as far as that is known.
    pub stamp: Option<i128>,
    /// The number of the last good parse.
    pub parsed: Option<u64>,
    /// The newest failure.
    pub error: Option<String>,
    /// How many times the file has parsed.
    pub generation: u64,
}

/// A node that shapes the scene's field, with the shader that it does so by.
pub struct FieldShape {
    pub entity: u64,
    pub index: u32,
    pub shader: String,
}

/// What one slot of the field was made from.
pub struct FieldKey {
    pub entity: u64,
    pub shader: String,
    pub generation: u64,
}

/// Everything that is known of the shaders of a project.
pub struct ShaderStore {
    pub cache: Table<FlslEntry>,
    pub bindings: Bindings,
    pub sdf: Table<SdfEntry>,
    /// What the field was last made from.
    pub field_key: Vec<FieldKey>,
    /// The nodes that have a slot in the field: the one at place 0 has slot 0.
    pub slots: Vec<u64>,
}

/// Is this very failure the one that is known of the file?
pub open spec fn already_reported(
    cache: Map<Seq<char>, FlslEntry>,
    rel: Seq<char>,
    msg: Seq<char>,
) -> bool {
    cache.contains_key(rel) && opt_text(cache[rel].error) == Some(msg)
}

/// Is this very failure the one that is known of the file?
pub open spec fn sdf_already_reported(
    cache: Map<Seq<char>, SdfEntry>,
    rel: Seq<char>,
    msg: Seq<char>,
) -> bool {
    cache.contains_key(rel) && opt_text(cache[rel].error) == Some(msg)
}

/// The line that reports a failure of a shader.
pub open spec fn report_line(rel: Seq<char>, msg: Seq<char>) -> Seq<char> {
    "◈ "@ + rel + ": "@ + msg
}

/// The line that reports a failure of a shader.
pub fn report(rel: &str, msg: &str) -> (out: String)
    ensures
        out@ == report_line(rel@, msg@),
{
    joined(joined(joined("◈ ", rel).as_str(), ": ").as_str(), msg)
}

/// The message of a shader that could not be read.
pub fn unreadable(why: &str) -> (out: String)
    ensures
        out@ == "can't read shader ("@ + why@ + ")"@,
{
    joined(joined("can't read shader (", why).as_str(), ")")
}

/// A message with the line and the column to which it belongs.
pub fn located(line: u64, column: u64, message: &str) -> (out: String)
    ensures
        out@ == decimal(line as nat) + ":"@ + decimal(column as nat) + ": "@ + message@,
{
    let at: String = joined(
        joined(decimal_text(line).as_str(), ":").as_str(),
        decimal_text(column).as_str(),
    );
    joined(joined(at.as_str(), ": ").as_str(), message)
}

/// The generation of a shader of which nothing is known is 0.
pub open spec fn generation_of(cache: Map<Seq<char>, SdfEntry>, rel: Seq<char>) -> u64 {
    if cache.contains_key(rel) {
        cache[rel].generation
    } else {
        0
    }
}

/// What a field is made from: each shape with its shader, and how often that
/// has parsed.
pub open spec fn key_of_shapes(
    cache: Map<Seq<char>, SdfEntry>,
    shapes: Seq<FieldShape>,
) -> Seq<(u64, Seq<char>, u64)> {
    shapes.map_values(
        |s: FieldShape| (s.entity, s.shader@, generation_of(cache, s.shader@)),
    )
}

/// Keys as plain data.
pub open spec fn key_models(v: Seq<FieldKey>) -> Seq<(u64, Seq<char>, u64)> {
    v.map_values(|k: FieldKey| (k.entity, k.shader@, k.generation))
}

/// What is to be done with the passes that hold the field.
#[derive(Clone, Copy, Debug, PartialEq, Eq)]
pub enum FieldStep {
    /// Nothing.
    Nothing,
    /// Take every shape out of them.
    Restore,
    /// Put these shapes into them.
    Splice,
}

/// What a frame finds of the field.
pub struct FieldTurn {
    /// Must it be made anew?
    pub changed: bool,
    /// What is said of the shapes that have no slot.
    pub warning: Option<String>,
}

impl ShaderStore {
    /// Each table holds a name once, and each node has one slot at most.
    pub open spec fn wf(&self) -> bool {
        self.cache.wf() && self.sdf.wf() && self.bindings.wf()
    }

    /// Nothing is known.
    pub fn new() -> (out: Self)
        ensures
            out.wf(),
            out.cache@ == Map::<Seq<char>, FlslEntry>::empty(),
            out.bindings@ == (BindingsModel { live: seq![], free: seq![] }),
            out.sdf@ == Map::<Seq<char>, SdfEntry>::empty(),
            out.field_key@ == Seq::<FieldKey>::empty(),
            out.slots@ == Seq::<u64>::empty(),
    {
        ShaderStore {
            cache: Table::new(),
            bindings: Bindings::new(),
            sdf: Table::new(),
            field_key: Vec::new(),
            slots: Vec::new(),
        }
    }

    /// Must the file be compiled, now that it has this stamp? It must unless it
    /// had that very stamp when it was last looked at.
    pub fn needs_compile(&self, rel: &str, stamp: Option<i128>) -> (out: bool)
        requires
            self.wf(),
        ensures
            out == !(self.cache@.contains_key(rel@) && self.cache@[rel@].stamp == stamp),
    {
        match self.cache.get(rel) {
            Some(entry) => entry.stamp != stamp,
            None => true,
        }
    }

    /// The shader that a new compile of the file takes the place of.
    pub fn replaces(&self, rel: &str) -> (out: Option<u64>)
        requires
            self.wf(),
        ensures
            out == if self.cache@.contains_key(rel@) && self.cache@[rel@].compiled is Some {
                Some(self.cache@[rel@].compiled->Some_0.shader)
            } else {
                None
            },
    {
        match self.cache.get(rel) {
            Some(entry) => match &entry.compiled {
                Some(c) => Some(c.shader),
                None => None,
            },
            None => None,
        }
    }

    /// Notes that the file could not be read or compiled. The last good compile
    /// stays. What comes back is the line to report, where this very failure has
    /// not been reported yet.
    pub fn compile_failed(&mut self, rel: &str, stamp: Option<i128>, msg: &str) -> (out: Option<
        String,
    >)
        requires
            old(self).wf(),
        ensures
            final(self).wf(),
            opt_text(out) == if already_reported(old(self).cache@, rel@, msg@) {
                None
            } else {
                Some(report_line(rel@, msg@))
            },
            final(self).cache@ == old(self).cache@.insert(rel@, final(self).cache@[rel@]),
            final(self).cache@[rel@].stamp == stamp,
            opt_text(final(self).cache@[rel@].error) == Some(msg@),
            already_reported(final(self).cache@, rel@, msg@),
            final(self).cache@[rel@].compiled == if old(self).cache@.contains_key(rel@) {
                old(self).cache@[rel@].compiled
            } else {
                None
            },
            final(self).bindings@ == old(self).bindings@,
            final(self).sdf == old(self).sdf,
            final(self).field_key == old(self).field_key,
            final(self).slots == old(self).slots,
    {
        let old_entry: Option<FlslEntry> = self.cache.take(rel);
        let (known, compiled): (bool, Option<CompiledShader>) = match old_entry {
            Some(entry) => {
                let known: bool = match &entry.error {
                    Some(e) => same_text(e.as_str(), msg),
                    None => false,
                };
                (known, entry.compiled)
            },
            None => (false, None),
        };
        let line: Option<String> = if known {
            None
        } else {
            Some(report(rel, msg))
        };
        let entry: FlslEntry = FlslEntry { stamp, compiled, error: Some(copy_of(msg)) };
        self.cache.put(rel, entry);
        assert(self.cache@ =~= old(self).cache@.insert(rel@, self.cache@[rel@]));
        line
    }

    /// Notes that the file compiled to `shader`. Every slot that was filled for
    /// that shader is given back, so that it is filled anew. What comes back is
    /// the line to report.
    pub fn compile_passed(
        &mut self,
        rel: &str,
        stamp: Option<i128>,
        shader: u64,
        textures: Vec<String>,
    ) -> (out: String)
        requires
            old(self).wf(),
        ensures
            final(self).wf(),
            out@ == "◈ compiled "@ + rel@,
            final(self).cache@ == old(self).cache@.insert(
                rel@,
                FlslEntry {
                    stamp,
                    compiled: Some(CompiledShader { shader, textures }),
                    error: None,
                },
            ),
            final(self).bindings@ == released(
                old(self).bindings@,
                |b: BindModel| b.shader != shader,
            ),
            final(self).sdf == old(self).sdf,
            final(self).field_key == old(self).field_key,
            final(self).slots == old(self).slots,
    {
        self.bindings.retire(shader);
        let compiled: Option<CompiledShader> = Some(CompiledShader { shader, textures });
        self.cache.put(rel, FlslEntry { stamp, compiled, error: None });
        joined("◈ compiled ", rel)
    }

    /// Drops everything, for another project. Must the shapes be taken out of
    /// the passes, which stay?
    pub fn clear_flsl_state(&mut self) -> (out: bool)
        ensures
            final(self).wf(),
            out == (old(self).slots@.len() > 0),
            final(self).cache@ == Map::<Seq<char>, FlslEntry>::empty(),
            final(self).bindings@ == (BindingsModel { live: seq![], free: seq![] }),
            final(self).sdf@ == Map::<Seq<char>, SdfEntry>::empty(),
            final(self).field_key@ == Seq::<FieldKey>::empty(),
            final(self).slots@ == Seq::<u64>::empty(),
    {
        let spliced: bool = self.slots.len() > 0;
        self.cache.clear();
        self.bindings = Bindings::new();
        self.sdf.clear();
        self.field_key.clear();
        self.slots.clear();
        spliced
    }

    /// Must the field shader be parsed, now that its file has this stamp?
    pub fn needs_parse(&self, rel: &str, stamp: Option<i128>) -> (out: bool)
        requires
            self.wf(),
        ensures
            out == !(self.sdf@.contains_key(rel@) && self.sdf@[rel@].stamp == stamp),
    {
        match self.sdf.get(rel) {
            Some(entry) => entry.stamp != stamp,
            None => true,
        }
    }

    /// Notes that the field shader parsed. Its generation goes up.
    pub fn parse_passed(&mut self, rel: &str, stamp: Option<i128>, parsed: u64)
        requires
            old(self).wf(),
            generation_of(old(self).sdf@, rel@) < u64::MAX,
        ensures
            final(self).wf(),
            final(self).sdf@ == old(self).sdf@.insert(
                rel@,
                SdfEntry {
                    stamp,
                    parsed: Some(parsed),
                    error: None,
                    generation: (generation_of(old(self).sdf@, rel@) + 1) as u64,
                },
            ),
            final(self).cache == old(self).cache,
            final(self).bindings == old(self).bindings,
            final(self).field_key == old(self).field_key,
            final(self).slots == old(self).slots,
    {
        let before: u64 = match self.sdf.get(rel) {
            Some(entry) => entry.generation,
            None => 0,
        };
        let entry: SdfEntry = SdfEntry {
            stamp,
            parsed: Some(parsed),
            error: None,
            generation: before + 1,
        };
        self.sdf.put(rel, entry);
    }

    /// Notes that the field shader could not be read or parsed. The last good
    /// parse and its generation stay. What comes back is the line to report,
    /// where this very failure has not been reported yet.
    pub fn parse_failed(&mut self, rel: &str, stamp: Option<i128>, msg: &str) -> (out: Option<
        String,
    >)
        requires
            old(self).wf(),
        ensures
            final(self).wf(),
            opt_text(out) == if sdf_already_reported(old(self).sdf@, rel@, msg@) {
                None
            } else {
                Some(report_line(rel@, msg@))
            },
            final(self).sdf@ == old(self).sdf@.insert(rel@, final(self).sdf@[rel@]),
            final(self).sdf@[rel@].stamp == stamp,
            opt_text(final(self).sdf@[rel@].error) == Some(msg@),
            sdf_already_reported(final(self).sdf@, rel@, msg@),
            final(self).sdf@[rel@].generation == generation_of(old(self).sdf@, rel@),
            final(self).sdf@[rel@].parsed == if old(self).sdf@.contains_key(rel@) {
                old(self).sdf@[rel@].parsed
            } else {
                None
            },
            final(self).cache == old(self).cache,
            final(self).bindings == old(self).bindings,
            final(self).field_key == old(self).field_key,
            final(self).slots == old(self).slots,
    {
        let (known, parsed, generation): (bool, Option<u64>, u64) = match self.sdf.get(rel) {
            Some(entry) => {
                let known: bool = match &entry.error {
                    Some(e) => same_text(e.as_str(), msg),
                    None => false,
                };
                (known, entry.parsed, entry.generation)
            },
            None => (false, None, 0),
        };
        let line: Option<String> = if known {
            None
        } else {
            Some(report(rel, msg))
        };
        self.sdf.put(rel, SdfEntry { stamp, parsed, error: Some(copy_of(msg)), generation });
        line
    }

    /// Must the field be made anew for these shapes? It must where a shape came
    /// or went, or has another shader, or its shader has parsed again. From now
    /// on these are the shapes that the field is made from.
    pub fn field_changed(&mut self, shapes: &Vec<FieldShape>) -> (out: bool)
        requires
            old(self).wf(),
        ensures
            final(self).wf(),
            key_models(final(self).field_key@) == key_of_shapes(old(self).sdf@, shapes@),
            out == (key_models(old(self).field_key@) != key_of_shapes(old(self).sdf@, shapes@)),
            final(self).cache == old(self).cache,
            final(self).bindings == old(self).bindings,
            final(self).sdf == old(self).sdf,
            final(self).slots == old(self).slots,
    {
        let mut key: Vec<FieldKey> = Vec::new();
        let mut i: usize = 0;
        while i < shapes.len()
            invariant
                i <= shapes.len(),
                self.wf(),
                key_models(key@) == key_of_shapes(self.sdf@, shapes@).take(i as int),
            decreases shapes.len() - i,
        {
            let generation: u64 = match self.sdf.get(shapes[i].shader.as_str()) {
                Some(entry) => entry.generation,
                None => 0,
            };
            let ghost was = key@;
            key.push(
                FieldKey {
                    entity: shapes[i].entity,
                    shader: shapes[i].shader.clone(),
                    generation,
                },
            );
            assert(key_models(key@) =~= key_models(was).push(
                key_of_shapes(self.sdf@, shapes@)[i as int],
            ));
            i += 1;
        }
        assert(key_models(key@) =~= key_of_shapes(self.sdf@, shapes@));
        if key.len() == self.field_key.len() {
            let mut k: usize = 0;
            let mut equal: bool = true;
            while k < key.len() && equal
                invariant
                    k <= key.len(),
                    key.len() == self.field_key.len(),
                    equal ==> forall|j: int|
                        0 <= j < k ==> key_models(key@)[j] == #[trigger] key_models(
                            self.field_key@,
                        )[j],
                    !equal ==> key_models(key@) != key_models(self.field_key@),
                decreases key.len() - k,
            {
                let a: &FieldKey = &key[k];
                let b: &FieldKey = &self.field_key[k];
                if !(a.entity == b.entity && a.generation == b.generation && same_text(
                    a.shader.as_str(),
                    b.shader.as_str(),
                )) {
                    assert(key_models(key@)[k as int] != key_models(self.field_key@)[k as int]);
                    equal = false;
                }
                k += 1;
            }
            if equal {
                assert(key_models(key@) =~= key_models(self.field_key@));
                return false;
            }
        }
        assert(key_models(key@).len() == key@.len());
        assert(key_models(self.field_key@).len() == self.field_key@.len());
        self.field_key = key;
        true
    }

    /// Must the field be made anew for the shapes that have a slot, and what is said
    /// of those that have none? `cut` says that there are such. It is said once for
    /// each time that the field is made anew.
    pub fn field_turn(&mut self, shapes: &Vec<FieldShape>, cut: bool, max: usize) -> (out: FieldTurn)
        requires
            old(self).wf(),
        ensures
            final(self).wf(),
            key_models(final(self).field_key@) == key_of_shapes(old(self).sdf@, shapes@),
            out.changed == (key_models(old(self).field_key@) != key_of_shapes(
                old(self).sdf@,
                shapes@,
            )),
            opt_text(out.warning) == if cut && out.changed {
                Some(too_many(max as nat))
            } else {
                None
            },
            final(self).cache == old(self).cache,
            final(self).bindings == old(self).bindings,
            final(self).sdf == old(self).sdf,
            final(self).slots == old(self).slots,
    {
        let changed: bool = self.field_changed(shapes);
        let warning: Option<String> = if cut && changed {
            Some(too_many_shapes(max))
        } else {
            None
        };
        FieldTurn { changed, warning }
    }

    /// What is to be done with the passes, now that these shapes could be made.
    /// Without any, they go back to what they are by themselves, where they are
    /// not so already.
    pub fn settle_field(&mut self, splice: &Splice) -> (out: FieldStep)
        ensures
            out == if splice.entities@.len() > 0 {
                FieldStep::Splice
            } else if old(self).slots@.len() > 0 {
                FieldStep::Restore
            } else {
                FieldStep::Nothing
            },
            final(self).slots@ == if splice.entities@.len() > 0 {
                old(self).slots@
            } else {
                seq![]
            },
            final(self).cache == old(self).cache,
            final(self).bindings == old(self).bindings,
            final(self).sdf == old(self).sdf,
            final(self).field_key == old(self).field_key,
    {
        if splice.entities.len() > 0 {
            return FieldStep::Splice;
        }
        if self.slots.len() > 0 {
            self.slots.clear();
            FieldStep::Restore
        } else {
            assert(self.slots@ =~= seq![]);
            FieldStep::Nothing
        }
    }

    /// Notes that the shapes were put into the passes. What comes back is the
    /// line to report.
    pub fn spliced(&mut self, splice: Splice) -> (out: String)
        ensures
            final(self).slots@ == splice.entities@,
            out@ == "◈ field: "@ + decimal(splice.entities@.len()) + " shape"@ + (if splice.entities@.len()
                == 1 {
                ""@
            } else {
                "s"@
            }) + " spliced into the scene field"@,
            final(self).cache == old(self).cache,
            final(self).bindings == old(self).bindings,
            final(self).sdf == old(self).sdf,
            final(self).field_key == old(self).field_key,
    {
        let n: usize = splice.entities.len();
        let head: String = joined(
            joined("◈ field: ", decimal_text(n as u64).as_str()).as_str(),
            " shape",
        );
        let counted: String = joined(
            head.as_str(),
            if n == 1 {
                ""
            } else {
                "s"
            },
        );
        self.slots = splice.entities;
        joined(counted.as_str(), " spliced into the scene field")
    }

    /// How many slots the field has.
    pub fn shape_count(&self) -> (out: usize)
        ensures
            out == self.slots@.len(),
    {
        self.slots.len()
    }
}

/// Is a shape kept out of the picture? It is where it is gone, or where only
/// another one is to be drawn.
pub fn is_parked(entity: u64, only: Option<u64>, alive: bool) -> (out: bool)
    ensures
        out == (!alive || (only matches Some(o) && o != entity)),
{
    match only {
        Some(o) => o != entity || !alive,
        None => !alive,
    }
}

/// The line that reports that a generated module was rejected.
pub fn module_rejected(what: &str, message: &str) -> (out: String)
    ensures
        out@ == "◈ field shapes: generated "@ + what@ + " module rejected: "@ + message@,
{
    let head: String = joined("◈ field shapes: generated ", what);
    joined(joined(head.as_str(), " module rejected: ").as_str(), message)
}

/// What warns of more shapes than there are slots.
pub open spec fn too_many(max: nat) -> Seq<char> {
    "scene has more than "@ + decimal(max) + " Field Shapes — extras don't render"@
}

/// The line that warns of more shapes than there are slots.
pub fn too_many_shapes(max: usize) -> (out: String)
    ensures
        out@ == too_many(max as nat),
{
    joined(
        joined("scene has more than ", decimal_text(max as u64).as_str()).as_str(),
        " Field Shapes — extras don't render",
    )
}

// ---- which shapes, in which order ------------------------------------------

/// The rank of a shape: that of its node, in the order of creation.
pub open spec fn index_rank(s: FieldShape) -> Rank {
    Rank { first: s.index as i64, second: 0, third: 0, fourth: 0 }
}

/// Are these the shapes that have a slot: the first `max` of all, in the order
/// of their nodes?
pub open spec fn shapes_with_slots(
    all: Seq<FieldShape>,
    max: nat,
    places: Seq<usize>,
    kept: Seq<FieldShape>,
) -> bool {
    &&& are_places(places, all.len())
    &&& in_order(all.map_values(|s: FieldShape| index_rank(s)), places)
    &&& kept.len() == if all.len() < max {
        all.len()
    } else {
        max
    }
    &&& forall|i: int|
        0 <= i < kept.len() ==> (#[trigger] kept[i]).entity == all[places[i] as int].entity
            && kept[i].index == all[places[i] as int].index && kept[i].shader@
            == all[places[i] as int].shader@
}

/// The shapes that have a slot, in the order of their slots; and whether there
/// were more.
pub fn slot_order(shapes: &Vec<FieldShape>, max: usize) -> (out: (Vec<FieldShape>, bool))
    ensures
        exists|places: Seq<usize>| #[trigger]
            shapes_with_slots(shapes@, max as nat, places, out.0@),
        out.1 == (shapes@.len() > max),
{
    let mut ranks: Vec<Rank> = Vec::new();
    let mut i: usize = 0;
    while i < shapes.len()
        invariant
            i <= shapes.len(),
            ranks@ == shapes@.map_values(|s: FieldShape| index_rank(s)).take(i as int),
        decreases shapes.len() - i,
    {
        ranks.push(Rank { first: shapes[i].index as i64, second: 0, third: 0, fourth: 0 });
        i += 1;
    }
    assert(ranks@ =~= shapes@.map_values(|s: FieldShape| index_rank(s)));
    let places: Vec<usize> = sorted_places(&ranks);
    let n: usize = if shapes.len() < max {
        shapes.len()
    } else {
        max
    };
    let mut kept: Vec<FieldShape> = Vec::new();
    let mut k: usize = 0;
    while k < n
        invariant
            k <= n <= shapes.len(),
            are_places(places@, shapes@.len()),
            kept@.len() == k,
            forall|j: int|
                0 <= j < k ==> (#[trigger] kept@[j]).entity == shapes@[places@[j] as int].entity
                    && kept@[j].index == shapes@[places@[j] as int].index && kept@[j].shader@
                    == shapes@[places@[j] as int].shader@,
        decreases n - k,
    {
        let s: &FieldShape = &shapes[places[k]];
        kept.push(FieldShape { entity: s.entity, index: s.index, shader: s.shader.clone() });
        k += 1;
    }
    let out: (Vec<FieldShape>, bool) = (kept, shapes.len() > max);
    assert(shapes_with_slots(shapes@, max as nat, places@, out.0@));
    out
}

/// The shapes that a frame works on.
pub struct FieldPlan {
    /// Those that have a slot.
    pub kept: Vec<FieldShape>,
    /// Are there more?
    pub cut: bool,
    /// The shaders that have to be at hand.
    pub paths: Vec<String>,
}

/// Is this the plan for the shapes of a scene?
pub open spec fn is_field_plan(shapes: Seq<FieldShape>, max: nat, plan: FieldPlan) -> bool {
    &&& exists|places: Seq<usize>| #[trigger]
        shapes_with_slots(shapes, max, places, plan.kept@)
    &&& plan.cut == (shapes.len() > max)
    &&& strictly_rising(texts(plan.paths@))
    &&& same_members(texts(plan.paths@), shaders_of(plan.kept@))
}

/// The shaders of some shapes.
pub open spec fn shaders_of(shapes: Seq<FieldShape>) -> Seq<Seq<char>> {
    shapes.map_values(|s: FieldShape| s.shader@)
}

/// The shapes that a frame works on, out of those of the scene. There is nothing to
/// do before the device and both of the passes that draw them are there.
pub fn field_plan(
    device: bool,
    raster: bool,
    raymarch: bool,
    shapes: &Vec<FieldShape>,
    max: usize,
) -> (out: Option<FieldPlan>)
    ensures
        out is Some <==> device && raster && raymarch,
        out matches Some(plan) ==> is_field_plan(shapes@, max as nat, plan),
{
    if !(device && raster && raymarch) {
        return None;
    }
    let (kept, cut): (Vec<FieldShape>, bool) = slot_order(shapes, max);
    let mut named: Vec<String> = Vec::new();
    let mut i: usize = 0;
    while i < kept.len()
        invariant
            i <= kept.len(),
            texts(named@) == shaders_of(kept@.take(i as int)),
        decreases kept.len() - i,
    {
        let ghost was = named@;
        named.push(copy_of(kept[i].shader.as_str()));
        assert(texts(named@) =~= texts(was).push(kept@[i as int].shader@));
        assert(shaders_of(kept@.take(i + 1)) =~= shaders_of(kept@.take(i as int)).push(
            kept@[i as int].shader@,
        ));
        i += 1;
    }
    assert(kept@.take(kept@.len() as int) =~= kept@);
    let ghost shaders = texts(named@);
    let paths: Vec<String> = distinct_paths(named);
    assert(shaders == shaders_of(kept@));
    let plan: FieldPlan = FieldPlan { kept, cut, paths };
    proof {
        let places = choose|places: Seq<usize>| #[trigger]
            shapes_with_slots(shapes@, max as nat, places, kept@);
        assert(shapes_with_slots(shapes@, max as nat, places, plan.kept@));
        assert(same_members(texts(plan.paths@), shaders_of(plan.kept@)));
    }
    Some(plan)
}

/// The field is made anew once a shader of it has parsed again, and is not by a shader that
/// none of its shapes has.
pub proof fn law_a_new_parse_makes_the_field_anew(
    cache: Map<Seq<char>, SdfEntry>,
    shapes: Seq<FieldShape>,
    rel: Seq<char>,
    e: SdfEntry,
)
    requires
        e.generation != generation_of(cache, rel),
    ensures
        key_of_shapes(cache.insert(rel, e), shapes) == key_of_shapes(cache, shapes) <==> !(
        shaders_of(shapes).contains(rel)),
        key_of_shapes(cache, shapes).len() == shapes.len(),
{
    let now = key_of_shapes(cache.insert(rel, e), shapes);
    let was = key_of_shapes(cache, shapes);
    if shaders_of(shapes).contains(rel) {
        let k = choose|k: int| 0 <= k < shapes.len() && shaders_of(shapes)[k] == rel;
        assert(now[k].2 == e.generation);
        assert(was[k].2 == generation_of(cache, rel));
    } else {
        assert forall|k: int| 0 <= k < shapes.len() implies now[k] == was[k] by {
            assert(shaders_of(shapes)[k] == shapes[k].shader@);
        }
        assert(now =~= was);
    }
}

/// The field is made anew where another node, another shader or another number of shapes makes
/// it up.
pub proof fn law_other_shapes_make_another_field(
    cache: Map<Seq<char>, SdfEntry>,
    a: Seq<FieldShape>,
    b: Seq<FieldShape>,
)
    requires
        key_of_shapes(cache, a) == key_of_shapes(cache, b),
    ensures
        a.len() == b.len(),
        forall|i: int|
            #![trigger a[i]]
            0 <= i < a.len() ==> a[i].entity == b[i].entity && a[i].shader@ == b[i].shader@,
{
    let ka = key_of_shapes(cache, a);
    let kb = key_of_shapes(cache, b);
    assert(ka.len() == a.len() && kb.len() == b.len());
    assert forall|i: int| #![trigger a[i]] 0 <= i < a.len() implies a[i].entity == b[i].entity
        && a[i].shader@ == b[i].shader@ by {
        assert(ka[i] == kb[i]);
    }
}

/// Slots go by the order in which nodes were made: an earlier node has an earlier slot, and a
/// node that has none was made no earlier than any that has.
pub proof fn law_earlier_nodes_have_earlier_slots(
    all: Seq<FieldShape>,
    max: nat,
    places: Seq<usize>,
    kept: Seq<FieldShape>,
    i: int,
    j: int,
)
    requires
        shapes_with_slots(all, max, places, kept),
        0 <= i < kept.len(),
        i < j < all.len(),
    ensures
        kept[i].index <= all[places[j] as int].index,
        j < kept.len() ==> kept[i].index <= kept[j].index,
        kept.len() <= max,
        kept.len() < max ==> kept.len() == all.len(),
{
    let ranks = all.map_values(|s: FieldShape| index_rank(s));
    assert(comes_first(ranks, places[i] as int, places[j] as int));
    assert(ranks[places[i] as int] == index_rank(all[places[i] as int]));
    assert(ranks[places[j] as int] == index_rank(all[places[j] as int]));
}

/// A failure is reported again only where it is another one.
pub proof fn law_a_failure_is_reported_once(
    cache: Map<Seq<char>, FlslEntry>,
    sdf: Map<Seq<char>, SdfEntry>,
    rel: Seq<char>,
    a: Seq<char>,
    b: Seq<char>,
)
    ensures
        already_reported(cache, rel, a) && already_reported(cache, rel, b) ==> a == b,
        sdf_already_reported(sdf, rel, a) && sdf_already_reported(sdf, rel, b) ==> a == b,
        !cache.contains_key(rel) ==> !already_reported(cache, rel, a),
        !sdf.contains_key(rel) ==> !sdf_already_reported(sdf, rel, a) && generation_of(sdf, rel) == 0,
{
}

// ---- the code of the field -------------------------------------------------

/// Shapes that are being put together: the functions that measure them, those
/// that colour them, and the nodes in the order of their slots.
pub struct Splice {
    pub distances: Vec<char>,
    pub colors: Vec<char>,
    pub entities: Vec<u64>,
}

/// One line for each slot: `head`, the slot, `tail`.
pub open spec fn slot_lines(n: nat, head: Seq<char>, tail: Seq<char>) -> Seq<char>
    decreases n,
{
    if n == 0 {
        seq![]
    } else {
        slot_lines((n - 1) as nat, head, tail) + head + decimal((n - 1) as nat) + tail
    }
}

/// The lines that pick the colour of the nearest of `n` shapes.
pub open spec fn color_lines(n: nat) -> Seq<char>
    decreases n,
{
    if n == 0 {
        seq![]
    } else {
        let i = decimal((n - 1) as nat);
        color_lines((n - 1) as nat) + "    let d"@ + i + " = flsl_shape"@ + i + "_d(p);\n    if (d"@
            + i + " < m.d) { m = Matter(d"@ + i + ", flsl_shape"@ + i + "_col(p)); }\n"@
    }
}

/// The lines that pick the nearest of `n` shapes.
pub open spec fn nearest_lines(n: nat) -> Seq<char>
    decreases n,
{
    if n == 0 {
        seq![]
    } else {
        let i = decimal((n - 1) as nat);
        nearest_lines((n - 1) as nat) + "    let s"@ + i + " = flsl_shape"@ + i
            + "_d(p);\n    if (s"@ + i + " < bd) { bd = s"@ + i + "; bi = "@ + i + "; }\n"@
    }
}

/// The code that measures the field: the functions of the shapes, and one that
/// takes the nearest of them.
pub open spec fn field_text(distances: Seq<char>, n: nat) -> Seq<char> {
    distances + "fn custom_d(p: vec3<f32>) -> f32 {\n    var d = 1e9;\n"@ + slot_lines(
        n,
        "    d = min(d, flsl_shape"@,
        "_d(p));\n"@,
    ) + "    return d;\n}\n"@
}

/// The code that colours the field: the functions of the shapes, one that takes
/// the colour of the nearest, and one that says which is the nearest.
pub open spec fn color_text(colors: Seq<char>, n: nat) -> Seq<char> {
    colors
        + "fn custom_col(p: vec3<f32>) -> Matter {\n    var m = Matter(1e9, vec3<f32>(0.0));\n"@
        + color_lines(n) + "    return m;\n}\n"@
        + "fn nearest_shape(p: vec3<f32>) -> i32 {\n    var bi = 0;\n    var bd = 1e9;\n"@
        + nearest_lines(n) + "    return bi;\n}\n"@
}

/// Appends `more` to `out`.
fn put(out: &mut Vec<char>, more: &str)
    ensures
        final(out)@ == old(out)@ + more@,
{
    append_chars(out, chars_of(more).as_slice());
}

/// Appends the decimal form of `n` to `out`.
fn put_number(out: &mut Vec<char>, n: usize)
    ensures
        final(out)@ == old(out)@ + decimal(n as nat),
{
    append_chars(out, decimal_of(n as u64).as_slice());
}

impl Splice {
    /// No shapes.
    pub fn new() -> (out: Self)
        ensures
            out.distances@ == Seq::<char>::empty(),
            out.colors@ == Seq::<char>::empty(),
            out.entities@ == Seq::<u64>::empty(),
    {
        Splice { distances: Vec::new(), colors: Vec::new(), entities: Vec::new() }
    }

    /// The slot for which the next shape is to be made.
    pub fn next_slot(&self) -> (out: usize)
        ensures
            out == self.entities@.len(),
    {
        self.entities.len()
    }

    /// Adds a shape that was made for the next slot. A shape that could not be
    /// made is not added, so the slots have no gaps.
    pub fn push(&mut self, entity: u64, distance_fn: &str, color_fn: &str)
        ensures
            final(self).distances@ == old(self).distances@ + distance_fn@,
            final(self).colors@ == old(self).colors@ + color_fn@,
            final(self).entities@ == old(self).entities@.push(entity),
    {
        put(&mut self.distances, distance_fn);
        put(&mut self.colors, color_fn);
        self.entities.push(entity);
    }

    /// The code that measures the field.
    pub fn field_code(&self) -> (out: String)
        ensures
            out@ == field_text(self.distances@, self.entities@.len()),
    {
        let mut out: Vec<char> = Vec::new();
        append_chars(&mut out, self.distances.as_slice());
        put(&mut out, "fn custom_d(p: vec3<f32>) -> f32 {\n    var d = 1e9;\n");
        let ghost head = out@;
        let mut i: usize = 0;
        assert(out@ =~= head + slot_lines(0, "    d = min(d, flsl_shape"@, "_d(p));\n"@));
        while i < self.entities.len()
            invariant
                i <= self.entities.len(),
                out@ == head + slot_lines(
                    i as nat,
                    "    d = min(d, flsl_shape"@,
                    "_d(p));\n"@,
                ),
            decreases self.entities.len() - i,
        {
            put(&mut out, "    d = min(d, flsl_shape");
            put_number(&mut out, i);
            put(&mut out, "_d(p));\n");
            assert(out@ =~= head + slot_lines(
                (i + 1) as nat,
                "    d = min(d, flsl_shape"@,
                "_d(p));\n"@,
            ));
            i += 1;
        }
        put(&mut out, "    return d;\n}\n");
        assert(out@ =~= field_text(self.distances@, self.entities@.len()));
        text_of(out.as_slice())
    }

    /// The code that colours the field.
    pub fn color_code(&self) -> (out: String)
        ensures
            out@ == color_text(self.colors@, self.entities@.len()),
    {
        let mut out: Vec<char> = Vec::new();
        append_chars(&mut out, self.colors.as_slice());
        put(
            &mut out,
            "fn custom_col(p: vec3<f32>) -> Matter {\n    var m = Matter(1e9, vec3<f32>(0.0));\n",
        );
        let ghost head = out@;
        let mut i: usize = 0;
        assert(out@ =~= head + color_lines(0));
        while i < self.entities.len()
            invariant
                i <= self.entities.len(),
                out@ == head + color_lines(i as nat),
            decreases self.entities.len() - i,
        {
            put(&mut out, "    let d");
            put_number(&mut out, i);
            put(&mut out, " = flsl_shape");
            put_number(&mut out, i);
            put(&mut out, "_d(p);\n    if (d");
            put_number(&mut out, i);
            put(&mut out, " < m.d) { m = Matter(d");
            put_number(&mut out, i);
            put(&mut out, ", flsl_shape");
            put_number(&mut out, i);
            put(&mut out, "_col(p)); }\n");
            assert(out@ =~= head + color_lines((i + 1) as nat));
            i += 1;
        }
        put(&mut out, "    return m;\n}\n");
        put(
            &mut out,
            "fn nearest_shape(p: vec3<f32>) -> i32 {\n    var bi = 0;\n    var bd = 1e9;\n",
        );
        let ghost middle = out@;
        let mut k: usize = 0;
        assert(out@ =~= middle + nearest_lines(0));
        while k < self.entities.len()
            invariant
                k <= self.entities.len(),
                out@ == middle + nearest_lines(k as nat),
            decreases self.entities.len() - k,
        {
            put(&mut out, "    let s");
            put_number(&mut out, k);
            put(&mut out, " = flsl_shape");
            put_number(&mut out, k);
            put(&mut out, "_d(p);\n    if (s");
            put_number(&mut out, k);
            put(&mut out, " < bd) { bd = s");
            put_number(&mut out, k);
            put(&mut out, "; bi = ");
            put_number(&mut out, k);
            put(&mut out, "; }\n");
            assert(out@ =~= middle + nearest_lines((k + 1) as nat));
            k += 1;
        }
        put(&mut out, "    return bi;\n}\n");
        assert(out@ =~= color_text(self.colors@, self.entities@.len()));
        text_of(out.as_slice())
    }
}

// ---- the mark of an error --------------------------------------------------

/// The line to which a message belongs: the number before its first `:`, or 1.
pub open spec fn marked_line(message: Seq<char>) -> nat {
    match number_in(message.take(index_of(message, ':')), usize::MAX as nat) {
        Some(n) => n,
        None => 1,
    }
}

/// What the editor marks in the text of a shader, given what the compiler says
/// of it: nothing, or the first line of the message and the line of the text to
/// which it belongs.
pub fn check_flsl_syntax(outcome: Result<(), String>) -> (out: Option<(usize, String)>)
    ensures
        match outcome {
            Ok(_) => out is None,
            Err(msg) => out matches Some(mark) && mark.1@ == first_line(msg@) && mark.0
                == marked_line(first_line(msg@)),
        },
{
    match outcome {
        Ok(_) => None,
        Err(msg) => {
            let s: Vec<char> = chars_of(msg.as_str());
            let n: usize = find(s.as_slice(), '\n');
            let hi: usize = if n < s.len() && n > 0 && s[n - 1] == '\r' {
                n - 1
            } else {
                n
            };
            let first: &[char] = slice_subrange(s.as_slice(), 0, hi);
            assert(first@ =~= first_line(s@));
            let colon: usize = find(first, ':');
            let head: &[char] = slice_subrange(first, 0, colon);
            assert(head@ =~= first@.take(colon as int));
            let line: usize = match parse_number(head, usize::MAX as u64) {
                Some(l) => l as usize,
                None => 1,
            };
            Some((line, text_of(first)))
        },
    }
}

/// A message that begins with a number and a colon belongs to the line of that number, and one
/// that begins with anything else to the first.
pub proof fn law_a_message_marks_its_line(n: nat, rest: Seq<char>)
    requires
        n <= usize::MAX,
    ensures
        marked_line(decimal(n) + ":"@ + rest) == n,
        rest.len() > 0 && rest[0] == ':' ==> marked_line(rest) == 1,
{
    reveal_strlit(":");
    let d = decimal(n);
    let message = d + ":"@ + rest;
    law_a_number_can_be_read_back(n);
    law_numbers_are_read_up_to_the_bound(n, usize::MAX as nat);
    lemma_index_of(message, ':');
    assert(message[d.len() as int] == ':');
    assert(message.contains(':'));
    let k = index_of(message, ':');
    assert(k == d.len()) by {
        if k < d.len() {
            assert(message[k] == d[k]);
            assert(is_digit(d[k]));
        }
    }
    assert(message.take(k) =~= d);
    lemma_index_of(rest, ':');
    if rest.len() > 0 && rest[0] == ':' {
        assert(rest.contains(':'));
        assert(index_of(rest, ':') == 0);
        assert(rest.take(0) =~= Seq::<char>::empty());
    }
}

/// Every slot has its own line in the code, and none is left out.
pub proof fn law_every_slot_has_its_line(n: nat, i: nat, head: Seq<char>, tail: Seq<char>)
    requires
        i < n,
    ensures
        occurs(slot_lines(n, head, tail), head + decimal(i) + tail),
        slot_lines(i, head, tail).is_prefix_of(slot_lines(n, head, tail)),
    decreases n,
{
    let line = head + decimal(i) + tail;
    let before = slot_lines((n - 1) as nat, head, tail);
    let all = slot_lines(n, head, tail);
    if i == n - 1 {
        let at = before.len() as int;
        assert(all =~= before + line);
        assert(all.subrange(at, at + line.len()) =~= line);
        assert(occurs_at(all, line, at));
    } else {
        law_every_slot_has_its_line((n - 1) as nat, i, head, tail);
        let at = choose|at: int| occurs_at(before, line, at);
        assert(all.subrange(at, at + line.len()) =~= before.subrange(at, at + line.len()));
        assert(occurs_at(all, line, at));
    }
}

/// What is gone is parked, and so is everything but the one that is shown alone, where one is.
pub proof fn law_what_is_shown_alone_parks_the_rest(entity: u64, only: Option<u64>, alive: bool, out: bool)
    requires
        call_ensures(is_parked, (entity, only, alive), out),
    ensures
        !alive ==> out,
        alive && only is None ==> !out,
        alive && only == Some(entity) ==> !out,
        alive && only is Some && only != Some(entity) ==> out,
{
}

/// Every path that is named is there once, and no other; they rise from one to the next.
pub proof fn law_every_named_path_is_there_once(named: Vec<String>, out: Vec<String>, t: Seq<char>, i: int, j: int)
    requires
        call_ensures(distinct_paths, (named,), out),
        0 <= i < j < out@.len(),
    ensures
        texts(out@).contains(t) <==> texts(named@).contains(t),
        text_before(out@[i]@, out@[j]@),
        out@[i]@ != out@[j]@,
{
    let all = texts(out@);
    assert(strictly_rising(all));
    assert(same_members(all, texts(named@)));
    assert(text_before(all[i], all[j]));
    law_texts_are_in_order(out@[i]@, out@[j]@);
}

/// What was never read, or has changed since, is to be compiled or parsed; what has not is not.
pub proof fn law_what_has_not_changed_is_not_read_again(
    s: &ShaderStore,
    rel: &str,
    stamp: Option<i128>,
    compile: bool,
    parse: bool,
)
    requires
        s.wf(),
        call_ensures(ShaderStore::needs_compile, (s, rel, stamp), compile),
        call_ensures(ShaderStore::needs_parse, (s, rel, stamp), parse),
    ensures
        !s.cache@.contains_key(rel@) ==> compile,
        s.cache@.contains_key(rel@) ==> (compile <==> s.cache@[rel@].stamp != stamp),
        !s.sdf@.contains_key(rel@) ==> parse,
        s.sdf@.contains_key(rel@) ==> (parse <==> s.sdf@[rel@].stamp != stamp),
{
}

/// A shader replaces the one that was compiled from the same file, where that had compiled.
pub proof fn law_a_shader_replaces_its_own_file(s: &ShaderStore, rel: &str, out: Option<u64>)
    requires
        s.wf(),
        call_ensures(ShaderStore::replaces, (s, rel), out),
    ensures
        out is Some <==> s.cache@.contains_key(rel@) && s.cache@[rel@].compiled is Some,
        out matches Some(shader) ==> s.cache@[rel@].compiled->Some_0.shader == shader,
{
}

/// Once everything is cleared nothing is known: every file is to be read again, nothing is
/// replaced, and there is no shape. Whether there were any is told.
pub proof fn law_what_is_cleared_is_forgotten(
    s: &mut ShaderStore,
    out: bool,
    rel: &str,
    stamp: Option<i128>,
    compile: bool,
    parse: bool,
    replaced: Option<u64>,
    before: usize,
    after: usize,
)
    requires
        call_ensures(ShaderStore::clear_flsl_state, (s,), out),
        call_ensures(ShaderStore::shape_count, (old(s),), before),
        call_ensures(ShaderStore::shape_count, (final(s),), after),
        call_ensures(ShaderStore::needs_compile, (final(s), rel, stamp), compile),
        call_ensures(ShaderStore::needs_parse, (final(s), rel, stamp), parse),
        call_ensures(ShaderStore::replaces, (final(s), rel), replaced),
    ensures
        compile && parse && replaced is None,
        after == 0,
        out <==> before > 0,
{
}

/// A field is spliced where it has shapes, and restored once where it had some and has none.
pub proof fn law_a_field_is_restored_once(
    once: &mut ShaderStore,
    twice: &mut ShaderStore,
    splice: &Splice,
    x: FieldStep,
    y: FieldStep,
)
    requires
        call_ensures(ShaderStore::settle_field, (once, splice), x),
        call_ensures(ShaderStore::settle_field, (twice, splice), y),
        *old(twice) == *final(once),
    ensures
        x is Splice <==> splice.entities@.len() > 0,
        x is Splice ==> final(once).slots@ == old(once).slots@ && y is Splice,
        x is Restore ==> old(once).slots@.len() > 0 && final(once).slots@.len() == 0,
        !(x is Splice) ==> y is Nothing,
        x is Nothing <==> splice.entities@.len() == 0 && old(once).slots@.len() == 0,
        final(once).cache == old(once).cache && final(once).sdf == old(once).sdf && final(once).bindings == old(once).bindings,
{
}

/// A report names the file first and then what is wrong with it; a rejected module is named with
/// what was said of it.
pub proof fn law_a_report_names_its_file(rel: &str, msg: &str, line: String, rejected: String)
    requires
        call_ensures(report, (rel, msg), line),
        call_ensures(module_rejected, (rel, msg), rejected),
    ensures
        (rel@ + ": "@ + msg@).is_suffix_of(line@),
        (rel@ + " module rejected: "@ + msg@).is_suffix_of(rejected@),
{
    let k = rel@ + ": "@ + msg@;
    assert(line@.subrange(line@.len() - k.len(), line@.len() as int) =~= k);
    let r = rel@ + " module rejected: "@ + msg@;
    assert(rejected@.subrange(rejected@.len() - r.len(), rejected@.len() as int) =~= r);
}

/// A plan is made once there is a device and both passes, and not before. It keeps as many
/// shapes as there are slots, all of them from the scene, says whether any were left out, and
/// names exactly the shaders of those that it keeps.
pub proof fn law_a_plan_keeps_shapes_of_the_scene(
    device: bool,
    raster: bool,
    raymarch: bool,
    shapes: &Vec<FieldShape>,
    max: usize,
    out: Option<FieldPlan>,
    i: int,
)
    requires
        call_ensures(field_plan, (device, raster, raymarch, shapes, max), out),
        out matches Some(plan) ==> 0 <= i < plan.kept@.len(),
    ensures
        out is Some <==> device && raster && raymarch,
        out matches Some(plan) ==> plan.kept@.len() <= max && plan.kept@.len() <= shapes@.len(),
        out matches Some(plan) ==> (plan.cut <==> plan.kept@.len() < shapes@.len()),
        out matches Some(plan) ==> texts(plan.paths@).contains(plan.kept@[i].shader@),
        out matches Some(plan) ==> exists|k: int|
            #![trigger shapes@[k]]
            0 <= k < shapes@.len() && shapes@[k].entity == plan.kept@[i].entity && shapes@[k].shader@
                == plan.kept@[i].shader@,
{
    if let Some(plan) = out {
        assert(is_field_plan(shapes@, max as nat, plan));
        let places = choose|places: Seq<usize>| #[trigger]
            shapes_with_slots(shapes@, max as nat, places, plan.kept@);
        let k = places[i] as int;
        assert(shapes@[k].entity == plan.kept@[i].entity);
        let names = shaders_of(plan.kept@);
        assert(names[i] == plan.kept@[i].shader@);
        assert(names.contains(names[i]));
        assert(texts(plan.paths@).contains(names[i]));
    }
}

/// The slot that comes next is the first that is free: there are as many before it as shapes.
pub proof fn law_the_next_slot_is_free(s: &Splice, out: usize)
    requires
        call_ensures(Splice::next_slot, (s,), out),
    ensures
        out == s.entities@.len(),
{
}

/// The code of a field begins with that of its shapes and asks each of them.
pub proof fn law_a_field_asks_every_shape(s: &Splice, distance: String, colour: String, i: nat)
    requires
        i < s.entities@.len(),
        call_ensures(Splice::field_code, (s,), distance),
        call_ensures(Splice::color_code, (s,), colour),
    ensures
        s.distances@.is_prefix_of(distance@),
        s.colors@.is_prefix_of(colour@),
        exists|a: Seq<char>, b: Seq<char>|
            #![trigger (a + ("    d = min(d, flsl_shape"@ + decimal(i) + "_d(p));\n"@) + b)]
            distance@ == a + ("    d = min(d, flsl_shape"@ + decimal(i) + "_d(p));\n"@) + b,
        exists|a: Seq<char>, b: Seq<char>|
            #![trigger (a + colour_line(i) + b)]
            colour@ == a + colour_line(i) + b,
        exists|a: Seq<char>, b: Seq<char>|
            #![trigger (a + nearest_line(i) + b)]
            colour@ == a + nearest_line(i) + b,
{
    let n = s.entities@.len();
    assert(distance@.subrange(0, s.distances@.len() as int) =~= s.distances@);
    assert(colour@.subrange(0, s.colors@.len() as int) =~= s.colors@);
    let head = "    d = min(d, flsl_shape"@;
    let tail = "_d(p));\n"@;
    let (a, b) = lemma_slot_line(n, i, head, tail);
    let first = "fn custom_d(p: vec3<f32>) -> f32 {\n    var d = 1e9;\n"@;
    let last = "    return d;\n}\n"@;
    let line = head + decimal(i) + tail;
    assert(distance@ =~= (s.distances@ + first + a) + line + (b + last));
    let (c, d) = lemma_colour_line(n, i);
    let (e, f) = lemma_nearest_line(n, i);
    let one = "fn custom_col(p: vec3<f32>) -> Matter {\n    var m = Matter(1e9, vec3<f32>(0.0));\n"@;
    let two = "    return m;\n}\n"@;
    let three =
        "fn nearest_shape(p: vec3<f32>) -> i32 {\n    var bi = 0;\n    var bd = 1e9;\n"@;
    let four = "    return bi;\n}\n"@;
    let rest = two + three + nearest_lines(n) + four;
    assert(colour@ =~= (s.colors@ + one + c) + colour_line(i) + (d + rest));
    let start = s.colors@ + one + color_lines(n) + two + three;
    assert(colour@ =~= (start + e) + nearest_line(i) + (f + four));
}

/// The line that takes the colour of shape `i` where that is the nearest so far.
pub open spec fn colour_line(i: nat) -> Seq<char> {
    let n = decimal(i);
    "    let d"@ + n + " = flsl_shape"@ + n + "_d(p);\n    if (d"@ + n + " < m.d) { m = Matter(d"@
        + n + ", flsl_shape"@ + n + "_col(p)); }\n"@
}

/// The line that notes that shape `i` is the nearest so far.
pub open spec fn nearest_line(i: nat) -> Seq<char> {
    let n = decimal(i);
    "    let s"@ + n + " = flsl_shape"@ + n + "_d(p);\n    if (s"@ + n + " < bd) { bd = s"@ + n
        + "; bi = "@ + n + "; }\n"@
}

/// What stands before and behind the line of a slot.
proof fn lemma_slot_line(n: nat, i: nat, head: Seq<char>, tail: Seq<char>) -> (out: (
    Seq<char>,
    Seq<char>,
))
    requires
        i < n,
    ensures
        slot_lines(n, head, tail) == out.0 + (head + decimal(i) + tail) + out.1,
    decreases n,
{
    let less = slot_lines((n - 1) as nat, head, tail);
    if i == n - 1 {
        assert(slot_lines(n, head, tail) =~= less + (head + decimal(i) + tail) + Seq::<char>::empty());
        (less, Seq::empty())
    } else {
        let (a, b) = lemma_slot_line((n - 1) as nat, i, head, tail);
        let last = head + decimal((n - 1) as nat) + tail;
        assert(slot_lines(n, head, tail) =~= a + (head + decimal(i) + tail) + (b + last));
        (a, b + last)
    }
}

/// What stands before and behind the colour of a shape.
proof fn lemma_colour_line(n: nat, i: nat) -> (out: (Seq<char>, Seq<char>))
    requires
        i < n,
    ensures
        color_lines(n) == out.0 + colour_line(i) + out.1,
    decreases n,
{
    let less = color_lines((n - 1) as nat);
    let last = colour_line((n - 1) as nat);
    assert(color_lines(n) =~= less + last);
    if i == n - 1 {
        assert(less + last =~= less + last + Seq::<char>::empty());
        (less, Seq::empty())
    } else {
        let (a, b) = lemma_colour_line((n - 1) as nat, i);
        assert(less + last =~= a + colour_line(i) + (b + last));
        (a, b + last)
    }
}

/// What stands before and behind the test of a shape.
proof fn lemma_nearest_line(n: nat, i: nat) -> (out: (Seq<char>, Seq<char>))
    requires
        i < n,
    ensures
        nearest_lines(n) == out.0 + nearest_line(i) + out.1,
    decreases n,
{
    let less = nearest_lines((n - 1) as nat);
    let last = nearest_line((n - 1) as nat);
    assert(nearest_lines(n) =~= less + last);
    if i == n - 1 {
        assert(less + last =~= less + last + Seq::<char>::empty());
        (less, Seq::empty())
    } else {
        let (a, b) = lemma_nearest_line((n - 1) as nat, i);
        assert(less + last =~= a + nearest_line(i) + (b + last));
        (a, b + last)
    }
}

/// A shader that fails keeps the last good one, is not tried again before it changes, and is
/// reported once: the same failure again is not.
pub proof fn law_a_broken_shader_keeps_the_last_good_one(
    once: &mut ShaderStore,
    twice: &mut ShaderStore,
    rel: &str,
    stamp: Option<i128>,
    msg: &str,
    x: Option<String>,
    y: Option<String>,
    before: Option<u64>,
    after: Option<u64>,
    again: bool,
    other: Seq<char>,
)
    requires
        old(once).wf(),
        old(twice).wf(),
        call_ensures(ShaderStore::compile_failed, (once, rel, stamp, msg), x),
        call_ensures(ShaderStore::compile_failed, (twice, rel, stamp, msg), y),
        *old(twice) == *final(once),
        call_ensures(ShaderStore::replaces, (old(once), rel), before),
        call_ensures(ShaderStore::replaces, (final(once), rel), after),
        call_ensures(ShaderStore::needs_compile, (final(once), rel, stamp), again),
    ensures
        after == before,
        !again,
        y is None,
        x matches Some(line) ==> line@ == report_line(rel@, msg@),
        other != rel@ ==> final(once).cache@.contains_key(other) == old(once).cache@.contains_key(
            other,
        ) && (old(once).cache@.contains_key(other) ==> final(once).cache@[other] == old(
            once,
        ).cache@[other]),
        final(once).sdf == old(once).sdf && final(once).slots == old(once).slots && final(
            once).bindings@ == old(once).bindings@,
{
    assert(final(once).cache@.contains_key(rel@));
}

/// A shader that compiles is the one that its file has from then on, with no failure left, and
/// is not tried again before it changes; nothing is bound to it yet.
pub proof fn law_a_good_shader_takes_its_place(
    s: &mut ShaderStore,
    rel: &str,
    stamp: Option<i128>,
    shader: u64,
    textures: Vec<String>,
    out: String,
    after: Option<u64>,
    again: bool,
    b: BindModel,
)
    requires
        old(s).wf(),
        call_ensures(ShaderStore::compile_passed, (s, rel, stamp, shader, textures), out),
        call_ensures(ShaderStore::replaces, (final(s), rel), after),
        call_ensures(ShaderStore::needs_compile, (final(s), rel, stamp), again),
    ensures
        after == Some(shader),
        !again,
        final(s).cache@[rel@].error is None,
        final(s).bindings@.live.contains(b) <==> old(s).bindings@.live.contains(b) && b.shader
            != shader,
        rel@.is_suffix_of(out@),
        final(s).sdf == old(s).sdf && final(s).slots == old(s).slots,
{
    lemma_filter_holds(old(s).bindings@.live, |b: BindModel| b.shader != shader, b);
    assert(out@.subrange(out@.len() - rel@.len(), out@.len() as int) =~= rel@);
}

/// A shape that parses is of another generation than before; one that does not keeps the last
/// good one and its generation, and is reported once. Neither is tried again before it changes.
pub proof fn law_a_parse_is_of_another_generation(
    good: &mut ShaderStore,
    bad: &mut ShaderStore,
    rel: &str,
    stamp: Option<i128>,
    parsed: u64,
    msg: &str,
    out: Option<String>,
    again: bool,
    still: bool,
)
    requires
        old(good).wf(),
        old(bad).wf(),
        generation_of(old(good).sdf@, rel@) < u64::MAX,
        call_ensures(ShaderStore::parse_passed, (good, rel, stamp, parsed), ()),
        call_ensures(ShaderStore::parse_failed, (bad, rel, stamp, msg), out),
        call_ensures(ShaderStore::needs_parse, (final(good), rel, stamp), again),
        call_ensures(ShaderStore::needs_parse, (final(bad), rel, stamp), still),
    ensures
        !again && !still,
        final(good).sdf@[rel@].generation == generation_of(old(good).sdf@, rel@) + 1,
        final(good).sdf@[rel@].parsed == Some(parsed) && final(good).sdf@[rel@].error is None,
        final(bad).sdf@[rel@].generation == generation_of(old(bad).sdf@, rel@),
        old(bad).sdf@.contains_key(rel@) ==> final(bad).sdf@[rel@].parsed == old(
            bad,
        ).sdf@[rel@].parsed,
        out matches Some(line) ==> line@ == report_line(rel@, msg@),
        final(bad).cache == old(bad).cache && final(good).cache == old(good).cache,
{
    assert(final(bad).sdf@.contains_key(rel@));
}

/// A field that was looked at has not changed when it is looked at again; it is warned of shapes
/// that were left out once for every change.
pub proof fn law_a_field_changes_once(
    once: &mut ShaderStore,
    twice: &mut ShaderStore,
    shapes: &Vec<FieldShape>,
    cut: bool,
    max: usize,
    x: FieldTurn,
    y: FieldTurn,
)
    requires
        old(once).wf(),
        old(twice).wf(),
        call_ensures(ShaderStore::field_turn, (once, shapes, cut, max), x),
        call_ensures(ShaderStore::field_turn, (twice, shapes, cut, max), y),
        *old(twice) == *final(once),
    ensures
        !y.changed && y.warning is None,
        x.warning is Some <==> cut && x.changed,
        final(once).slots == old(once).slots && final(once).cache == old(once).cache,
{
}

/// Once a field was spliced its shapes are those that it was spliced from, and as many are told.
pub proof fn law_a_spliced_field_has_its_shapes(s: &mut ShaderStore, splice: Splice, out: String, n: usize)
    requires
        call_ensures(ShaderStore::spliced, (s, splice), out),
        call_ensures(ShaderStore::shape_count, (final(s),), n),
    ensures
        n == splice.entities@.len(),
        ("◈ field: "@ + decimal(n as nat) + " shape"@).is_prefix_of(out@),
        final(s).cache == old(s).cache && final(s).sdf == old(s).sdf,
{
    let k = "◈ field: "@ + decimal(n as nat) + " shape"@;
    assert(out@.subrange(0, k.len() as int) =~= k);
}

/// A shader that checks has no mark; one that does not is marked with the first line of what is
/// wrong, on the line that it names.
pub proof fn law_a_wrong_shader_is_marked(outcome: Result<(), String>, out: Option<(usize, String)>)
    requires
        call_ensures(check_flsl_syntax, (outcome,), out),
    ensures
        out is Some <==> outcome is Err,
        out matches Some(mark) ==> mark.1@ == first_line(outcome->Err_0@) && mark.0 == marked_line(
            mark.1@,
        ),
{
}

} // verus!
