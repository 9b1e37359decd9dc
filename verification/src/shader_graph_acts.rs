//! What is asked of a shader graph: the acts that its tab gathers in a frame and
//! what each of them comes to, the edits of its nodes and knobs, and the wires
//! that are drawn between the nodes.

use crate::script_meta::opt_text;
use crate::shader_graph::{is_toast, Knob, KnobType, ShaderGraphState, Toast};
use crate::shader_graph_view::{node_at, GNode, KeyKind, Port, Spot, ValueType};
use crate::text::copy_of;
use vstd::prelude::*;

verus! {

// ---- acts ------------------------------------------------------------------

/// Something that is asked of the graph. Edits of the shader go by a number.
pub enum Act {
    /// Selects these nodes and no others.
    Select(Vec<u64>),
    /// Selects these nodes too.
    SelectAdd(Vec<u64>),
    /// Selects a node, or no longer.
    SelectToggle(u64),
    Undo,
    Redo,
    /// Turns a knob, while the pointer is down.
    Live(u64),
    /// Edits the shader. A `strict` edit must not break it.
    Commit { edit: u64, strict: bool },
    /// Writes down where these nodes stand.
    Place(Vec<u64>),
    Delete(Vec<u64>),
    /// Lays out all nodes anew.
    Arrange,
    Duplicate(Vec<u64>),
}

/// What is left to be done with the shader and its file.
pub enum Work {
    Done,
    /// What was edited is printed to the file first.
    Undo,
    Redo,
    Live(u64),
    Commit { edit: u64, strict: bool },
    Place(Vec<u64>),
    /// Each of these is deleted where it is still there: one may go with another.
    Delete(Vec<u64>),
    Arrange,
    Duplicate(Vec<u64>),
}

/// The selected nodes after an act.
pub open spec fn selected_after(act: Act, before: Set<u64>) -> Set<u64> {
    match act {
        Act::Select(keys) => keys@.to_set(),
        Act::SelectAdd(keys) => before.union(keys@.to_set()),
        Act::SelectToggle(k) => if before.contains(k) {
            before.remove(k)
        } else {
            before.insert(k)
        },
        Act::Delete(_) => Set::empty(),
        _ => before,
    }
}

/// What an act leaves to be done. Without a shader there is nothing to edit.
pub open spec fn work_of(act: Act, has_ir: bool) -> Work {
    match act {
        Act::Select(_) | Act::SelectAdd(_) | Act::SelectToggle(_) => Work::Done,
        Act::Undo => Work::Undo,
        Act::Redo => Work::Redo,
        Act::Live(edit) => if has_ir {
            Work::Live(edit)
        } else {
            Work::Done
        },
        Act::Commit { edit, strict } => if has_ir {
            Work::Commit { edit, strict }
        } else {
            Work::Done
        },
        Act::Place(keys) => if has_ir {
            Work::Place(keys)
        } else {
            Work::Done
        },
        Act::Delete(keys) => if has_ir {
            Work::Delete(keys)
        } else {
            Work::Done
        },
        Act::Arrange => if has_ir {
            Work::Arrange
        } else {
            Work::Done
        },
        Act::Duplicate(keys) => if has_ir {
            Work::Duplicate(keys)
        } else {
            Work::Done
        },
    }
}

impl ShaderGraphState {
    /// Begins an act: what it does to the selection and to where nodes stand is
    /// done, and the rest comes back.
    pub fn begin_act(&mut self, act: Act) -> (out: Work)
        requires
            old(self).pos_cache.wf(),
        ensures
            final(self).pos_cache.wf(),
            final(self).sel@ == selected_after(act, old(self).sel@),
            final(self).pos_cache@ == if act is Arrange {
                Map::<Seq<char>, Spot>::empty()
            } else {
                old(self).pos_cache@
            },
            out == work_of(act, old(self).has_ir),
            *final(self) == (ShaderGraphState {
                sel: final(self).sel,
                pos_cache: final(self).pos_cache,
                ..*old(self)
            }),
    {
        let has_ir: bool = self.has_ir;
        match act {
            Act::Select(keys) => {
                self.select(&keys);
                Work::Done
            },
            Act::SelectAdd(keys) => {
                self.select_add(&keys);
                Work::Done
            },
            Act::SelectToggle(k) => {
                self.select_toggle(k);
                Work::Done
            },
            Act::Undo => Work::Undo,
            Act::Redo => Work::Redo,
            Act::Live(edit) => if has_ir {
                Work::Live(edit)
            } else {
                Work::Done
            },
            Act::Commit { edit, strict } => if has_ir {
                Work::Commit { edit, strict }
            } else {
                Work::Done
            },
            Act::Place(keys) => if has_ir {
                Work::Place(keys)
            } else {
                Work::Done
            },
            Act::Delete(keys) => {
                self.delete_begins();
                if has_ir {
                    Work::Delete(keys)
                } else {
                    Work::Done
                }
            },
            Act::Arrange => {
                self.arrange_begins();
                if has_ir {
                    Work::Arrange
                } else {
                    Work::Done
                }
            },
            Act::Duplicate(keys) => if has_ir {
                Work::Duplicate(keys)
            } else {
                Work::Done
            },
        }
    }

    /// An edit was tried that gives back nodes: those that were placed or copied.
    /// They come back where the edit is to be printed to the file; they are
    /// selected once it is. An edit that failed is taken back.
    pub fn commit_returning(&mut self, outcome: Result<Vec<u64>, String>) -> (out: Option<Vec<u64>>)
        ensures
            !old(self).has_ir ==> out is None && *final(self) == *old(self),
            old(self).has_ir ==> match outcome {
                Ok(keys) => out == Some(keys) && final(self).history@
                    == old(self).history@.begun().touched() && *final(self) == (ShaderGraphState {
                    history: final(self).history,
                    ..*old(self)
                }),
                Err(why) => out is None && is_toast(final(self).status, why@, 30) && *final(self)
                    == (ShaderGraphState { status: final(self).status, ..*old(self) }),
            },
    {
        if !self.has_ir {
            return None;
        }
        match outcome {
            Ok(keys) => {
                self.history.begin();
                self.history.dirty = true;
                assert(self.history@ =~= old(self).history@.begun().touched());
                Some(keys)
            },
            Err(why) => {
                self.status = Some(Toast { text: copy_of(why.as_str()), tenths: 30 });
                None
            },
        }
    }
}

/// What is selected does not change the shader, and what changes the shader is
/// left to be done: no act does both but a deletion, whose nodes are gone.
pub proof fn law_an_act_selects_or_edits(act: Act, has_ir: bool, before: Set<u64>)
    ensures
        work_of(act, has_ir) is Done || selected_after(act, before) == before || act is Delete,
        !has_ir ==> work_of(act, has_ir) is Done || act is Undo || act is Redo,
{
}

/// While a shader is open each act that edits leaves its own work to be done, with the very
/// nodes or the very edit that it names: what is asked to be copied is copied, what is asked
/// to be deleted is deleted, and nothing else is. An act that selects leaves nothing.
pub proof fn law_what_is_asked_is_what_is_done(act: Act)
    ensures
        ({
            let work = work_of(act, true);
            &&& work is Done <==> act is Select || act is SelectAdd || act is SelectToggle
            &&& work is Undo <==> act is Undo
            &&& work is Redo <==> act is Redo
            &&& work is Live <==> act is Live
            &&& work is Commit <==> act is Commit
            &&& work is Place <==> act is Place
            &&& work is Delete <==> act is Delete
            &&& work is Arrange <==> act is Arrange
            &&& work is Duplicate <==> act is Duplicate
            &&& work matches Work::Live(edit) ==> act == Act::Live(edit)
            &&& work matches Work::Commit { edit, strict } ==> act == (Act::Commit { edit, strict })
            &&& work matches Work::Place(keys) ==> act == Act::Place(keys)
            &&& work matches Work::Delete(keys) ==> act == Act::Delete(keys)
            &&& work matches Work::Duplicate(keys) ==> act == Act::Duplicate(keys)
        }),
{
}

/// What can be taken back and done again can be so without a shader that is open; nothing
/// else is left to be done without one.
pub proof fn law_history_needs_no_shader(act: Act)
    ensures
        act is Undo || act is Redo ==> work_of(act, false) == work_of(act, true),
        !(act is Undo || act is Redo) ==> work_of(act, false) is Done,
{
}

/// Two acts of which the same is left to be done are the same, unless both only select.
pub proof fn law_no_two_edits_are_mistaken(one: Act, other: Act)
    requires
        work_of(one, true) == work_of(other, true),
        !(work_of(one, true) is Done),
    ensures
        one == other,
{
}

/// Selecting nodes selects those and no others; selecting more of them keeps what was
/// selected; toggling one changes that one alone, and twice nothing; a deletion leaves
/// nothing selected; and no other act changes what is selected.
pub proof fn law_an_act_selects_what_it_names(act: Act, before: Set<u64>, k: u64)
    ensures
        ({
            let is_in = selected_after(act, before).contains(k);
            &&& act matches Act::Select(keys) ==> (is_in <==> keys@.contains(k))
            &&& act matches Act::SelectAdd(keys) ==> (is_in <==> before.contains(k)
                || keys@.contains(k))
            &&& act matches Act::SelectToggle(t) ==> (is_in <==> (before.contains(k) != (t == k)))
            &&& act is SelectToggle ==> selected_after(act, selected_after(act, before)) == before
            &&& act is Delete ==> !is_in
            &&& !(act is Select || act is SelectAdd || act is SelectToggle || act is Delete) ==> (
            is_in <==> before.contains(k))
        }),
{
    if act is SelectToggle {
        assert(selected_after(act, selected_after(act, before)) =~= before);
    }
}

// ---- edits of nodes --------------------------------------------------------

/// How a node is renamed.
#[derive(Clone, Copy, Debug, PartialEq, Eq, Structural)]
pub enum RenamePlan {
    /// Its name is changed everywhere.
    Rename,
    /// It gets a name first, and that is changed.
    PromoteAndRename,
}

/// How a node is renamed: only values have names that can be changed.
pub fn rename_plan(kind: KeyKind) -> (out: Result<RenamePlan, String>)
    ensures
        match kind {
            KeyKind::Let => out == Ok::<RenamePlan, String>(RenamePlan::Rename),
            KeyKind::Anon => out == Ok::<RenamePlan, String>(RenamePlan::PromoteAndRename),
            _ => out matches Err(why) && why@ == "only value nodes rename"@,
        },
{
    match kind {
        KeyKind::Let => Ok(RenamePlan::Rename),
        KeyKind::Anon => Ok(RenamePlan::PromoteAndRename),
        _ => Err(copy_of("only value nodes rename")),
    }
}

/// An edit that a node offers.
#[derive(Clone, Copy, Debug, PartialEq, Eq, Structural)]
pub enum NodeEdit {
    Connect,
    Disconnect,
    Rename,
    RenameTexture,
    RenameKnob,
    Swizzle,
    /// Another kind of constant.
    ConstantKind,
    /// A number or a colour that stands in a port, as it is dragged.
    PortNumber,
    /// A name that stands in a port, from a list.
    PortName,
    /// A value in place of the one that stands there by default.
    Override,
    KnobType,
    /// The value of a knob or its range, as it is dragged.
    KnobValue,
    Blend,
}

/// How an edit is made.
#[derive(Clone, Copy, Debug, PartialEq, Eq, Structural)]
pub enum EditManner {
    /// While the pointer is down: printed to the file once it is let go.
    Live,
    /// At once, even where the shader is wrong then: wires come and go while a
    /// graph is built.
    Loose,
    /// At once, and only where a shader that was fine stays so.
    Strict,
}

/// How an edit is made.
pub fn edit_manner(edit: NodeEdit) -> (out: EditManner)
    ensures
        out == match edit {
            NodeEdit::PortNumber | NodeEdit::KnobValue => EditManner::Live,
            NodeEdit::Connect | NodeEdit::Swizzle | NodeEdit::KnobType => EditManner::Strict,
            _ => EditManner::Loose,
        },
{
    match edit {
        NodeEdit::PortNumber | NodeEdit::KnobValue => EditManner::Live,
        NodeEdit::Connect | NodeEdit::Swizzle | NodeEdit::KnobType => EditManner::Strict,
        _ => EditManner::Loose,
    }
}

// ---- knobs -----------------------------------------------------------------

/// How many numbers a value has.
pub open spec fn lane_count(ty: ValueType) -> nat {
    match ty {
        ValueType::Float => 1,
        ValueType::Vec2 => 2,
        ValueType::Vec3 => 3,
        ValueType::Vec4 => 4,
    }
}

/// An edit of a knob. Numbers are given by their bits.
#[derive(Clone, Copy, Debug, PartialEq, Eq)]
pub enum KnobEdit {
    Type(KnobType),
    Colour([u32; 4]),
    Lane { lane: usize, bits: u32 },
    Range { low: u32, high: u32 },
}

/// The types that a knob can have, in the order in which they are offered.
pub open spec fn offered_types() -> Seq<KnobType> {
    seq![
        KnobType { ty: ValueType::Float, is_color: false },
        KnobType { ty: ValueType::Vec2, is_color: false },
        KnobType { ty: ValueType::Vec3, is_color: false },
        KnobType { ty: ValueType::Vec4, is_color: false },
        KnobType { ty: ValueType::Vec4, is_color: true },
    ]
}

/// The types that a knob can have, in the order in which they are offered.
pub fn knob_types() -> (out: Vec<KnobType>)
    ensures
        out@ == offered_types(),
{
    let out: Vec<KnobType> = vec![
        KnobType { ty: ValueType::Float, is_color: false },
        KnobType { ty: ValueType::Vec2, is_color: false },
        KnobType { ty: ValueType::Vec3, is_color: false },
        KnobType { ty: ValueType::Vec4, is_color: false },
        KnobType { ty: ValueType::Vec4, is_color: true },
    ];
    assert(out@ =~= offered_types());
    out
}

/// The numbers of a value, if they are shown one by one: a colour is shown as
/// one.
pub fn knob_lanes(k: &Knob) -> (out: Option<usize>)
    ensures
        k.is_color ==> out is None,
        !k.is_color ==> (out matches Some(n) && n == lane_count(k.ty)),
{
    if k.is_color {
        return None;
    }
    Some(
        match k.ty {
            ValueType::Float => 1,
            ValueType::Vec2 => 2,
            ValueType::Vec3 => 3,
            ValueType::Vec4 => 4,
        },
    )
}

/// The range that is shown: the one that is set, or from zero to one.
pub fn knob_range(k: &Knob) -> (out: (u32, u32))
    ensures
        out == match k.range {
            Some(r) => r,
            None => (0u32, 0x3f80_0000u32),
        },
{
    match k.range {
        Some(r) => r,
        None => (0, 0x3f80_0000),
    }
}

/// Does the edit make sense for any knob?
pub open spec fn lane_fits(e: KnobEdit) -> bool {
    e matches KnobEdit::Lane { lane, .. } ==> lane < 4
}

/// The knob after an edit.
pub open spec fn is_knob_after(before: Knob, e: KnobEdit, after: Knob) -> bool {
    match e {
        KnobEdit::Type(t) => {
            &&& after.ty == t.ty
            &&& after.is_color == t.is_color
            &&& if t.is_color {
                after.default@ == seq![
                    0x3f80_0000u32,
                    0x3f80_0000u32,
                    0x3f80_0000u32,
                    0x3f80_0000u32,
                ] && after.range is None
            } else {
                after.default == before.default && after.range == before.range
            }
        },
        KnobEdit::Colour(c) => after == (Knob { default: c, ..before }),
        KnobEdit::Lane { lane, bits } => after == (Knob { default: after.default, ..before })
            && after.default@ == before.default@.update(lane as int, bits),
        KnobEdit::Range { low, high } => after == (Knob { range: Some((low, high)), ..before }),
    }
}

/// Edits the knob at place `u`. A knob that is gone by now cannot be edited.
pub fn edit_knob(knobs: &mut Vec<Knob>, u: usize, e: KnobEdit) -> (out: Result<(), String>)
    requires
        lane_fits(e),
    ensures
        u >= old(knobs)@.len() ==> final(knobs)@ == old(knobs)@ && (out matches Err(why) && why@
            == "stale uniform"@),
        u < old(knobs)@.len() ==> out is Ok && final(knobs)@ == old(knobs)@.update(
            u as int,
            final(knobs)@[u as int],
        ) && is_knob_after(old(knobs)@[u as int], e, final(knobs)@[u as int]),
{
    if u >= knobs.len() {
        return Err(copy_of("stale uniform"));
    }
    let mut k: Knob = knobs[u];
    match e {
        KnobEdit::Type(t) => {
            k.set_type(t);
        },
        KnobEdit::Colour(c) => {
            k.default = c;
        },
        KnobEdit::Lane { lane, bits } => {
            let mut d: [u32; 4] = k.default;
            d[lane] = bits;
            k.default = d;
        },
        KnobEdit::Range { low, high } => {
            k.range = Some((low, high));
        },
    }
    knobs.set(u, k);
    Ok(())
}

/// The type that a knob is given is the one that its list shows then, and no
/// value but a colour changes with it.
pub proof fn law_a_new_type_keeps_the_value(before: Knob, t: KnobType, after: Knob)
    requires
        is_knob_after(before, KnobEdit::Type(t), after),
        !t.is_color,
    ensures
        after.default == before.default,
        after.range == before.range,
        after.ty == t.ty,
        !after.is_color,
{
}

/// An edit of a knob changes what it is about and nothing else: a colour sets the value, a
/// lane that lane alone, a range the range alone. A knob that becomes a colour is white and
/// has no range.
pub proof fn law_an_edit_changes_one_thing_of_a_knob(before: Knob, e: KnobEdit, after: Knob)
    requires
        lane_fits(e),
        is_knob_after(before, e, after),
    ensures
        !(e is Type) ==> after.ty == before.ty && after.is_color == before.is_color,
        e matches KnobEdit::Type(t) ==> after.ty == t.ty && after.is_color == t.is_color,
        e matches KnobEdit::Type(t) ==> (t.is_color ==> after.range is None && forall|i: int|
            0 <= i < 4 ==> #[trigger] after.default@[i] == 0x3f80_0000u32),
        e matches KnobEdit::Colour(c) ==> after.default@ == c@ && after.range == before.range,
        e matches KnobEdit::Lane { lane, bits } ==> after.default@[lane as int] == bits
            && after.range == before.range && forall|i: int|
            0 <= i < 4 && i != lane ==> #[trigger] after.default@[i] == before.default@[i],
        e matches KnobEdit::Range { low, high } ==> after.range == Some((low, high))
            && after.default@ == before.default@,
{
}

/// Every type that a value can have is offered once for a knob that is no colour, and one type
/// for a colour, which has four numbers.
pub proof fn law_every_type_is_offered_once(t: KnobType)
    ensures
        offered_types().no_duplicates(),
        offered_types().contains(t) <==> !t.is_color || t.ty is Vec4,
{
    let all = offered_types();
    assert(all[0].ty is Float && all[1].ty is Vec2 && all[2].ty is Vec3 && all[3].ty is Vec4);
    assert(all[4].ty is Vec4 && all[4].is_color);
    if !t.is_color || t.ty is Vec4 {
        let i = if t.is_color {
            4int
        } else {
            lane_count(t.ty) - 1
        };
        assert(all[i] == t);
    }
}

/// A value of more numbers is of a greater type, and there are one to four of them.
pub proof fn law_types_differ_by_their_numbers(a: ValueType, b: ValueType)
    ensures
        1 <= lane_count(a) <= 4,
        lane_count(a) == lane_count(b) <==> a == b,
        lane_count(ValueType::Vec2) == 2 * lane_count(ValueType::Float),
        lane_count(ValueType::Vec3) == lane_count(ValueType::Vec2) + lane_count(ValueType::Float),
        lane_count(ValueType::Vec4) == 2 * lane_count(ValueType::Vec2),
{
}

// ---- wires -----------------------------------------------------------------

/// A wire that is drawn: from the output of the node at place `from` to the input
/// `port` of the node at place `to`.
#[derive(Clone, Copy, Debug, PartialEq, Eq, Structural)]
pub struct Wire {
    pub from: usize,
    pub to: usize,
    pub port: usize,
}

/// The wire that ends at an input, where it starts at a node that is there.
pub open spec fn wire_to(view: Seq<GNode>, to: int, port: int) -> Seq<Wire> {
    match view[to].inputs@[port].wired {
        Some(src) => match node_at(view, src) {
            Some(from) => seq![Wire { from: from as usize, to: to as usize, port: port as usize }],
            None => seq![],
        },
        None => seq![],
    }
}

/// The wires that end at the first `n` inputs of the node at `to`.
pub open spec fn wires_at(view: Seq<GNode>, to: int, n: int) -> Seq<Wire>
    decreases n,
{
    if n <= 0 {
        seq![]
    } else {
        wires_at(view, to, n - 1) + wire_to(view, to, n - 1)
    }
}

/// The wires that end at the first `n` nodes.
pub open spec fn wires_of(view: Seq<GNode>, n: int) -> Seq<Wire>
    decreases n,
{
    if n <= 0 {
        seq![]
    } else {
        wires_of(view, n - 1) + wires_at(view, n - 1, view[n - 1].inputs@.len() as int)
    }
}

/// The last node with this key.
fn place_of_node(view: &Vec<GNode>, key: u64) -> (out: Option<usize>)
    ensures
        match node_at(view@, key) {
            Some(i) => out == Some(i as usize) && 0 <= i < view@.len(),
            None => out is None,
        },
{
    let mut i: usize = view.len();
    assert(view@.take(i as int) =~= view@);
    while i > 0
        invariant
            i <= view.len(),
            node_at(view@, key) == node_at(view@.take(i as int), key),
        decreases i,
    {
        assert(view@.take(i as int).drop_last() =~= view@.take(i - 1));
        if view[i - 1].key == key {
            return Some(i - 1);
        }
        i -= 1;
    }
    None
}

/// The wires that are drawn, node by node. A wire from a node that is not there is
/// not.
pub fn wires(view: &Vec<GNode>) -> (out: Vec<Wire>)
    ensures
        out@ == wires_of(view@, view@.len() as int),
{
    let mut out: Vec<Wire> = Vec::new();
    let mut i: usize = 0;
    assert(out@ =~= wires_of(view@, 0));
    while i < view.len()
        invariant
            i <= view.len(),
            out@ == wires_of(view@, i as int),
        decreases view.len() - i,
    {
        let ghost before = out@;
        let mut p: usize = 0;
        assert(out@ =~= before + wires_at(view@, i as int, 0));
        while p < view[i].inputs.len()
            invariant
                i < view.len(),
                p <= view[i as int].inputs.len(),
                out@ == before + wires_at(view@, i as int, p as int),
            decreases view[i as int].inputs.len() - p,
        {
            let port: Port = view[i].inputs[p];
            let ghost was = out@;
            let ghost more = wire_to(view@, i as int, p as int);
            match port.wired {
                Some(src) => {
                    match place_of_node(view, src) {
                        Some(from) => {
                            out.push(Wire { from, to: i, port: p });
                            assert(out@ =~= was + more);
                        },
                        None => {
                            assert(out@ =~= was + more);
                        },
                    }
                },
                None => {
                    assert(out@ =~= was + more);
                },
            }
            assert(out@ =~= before + wires_at(view@, i as int, p + 1));
            p += 1;
        }
        i += 1;
    }
    out
}

/// Is this the input that feeds `site`, and the first that does?
pub open spec fn is_port_of(view: Seq<GNode>, site: u64, at: (int, int)) -> bool {
    &&& 0 <= at.0 < view.len()
    &&& 0 <= at.1 < view[at.0].inputs@.len()
    &&& view[at.0].inputs@[at.1].site == site
    &&& forall|i: int, p: int|
        0 <= i < view.len() && 0 <= p < view[i].inputs@.len() && (i < at.0 || (i == at.0 && p
            < at.1)) ==> (#[trigger] view[i].inputs@[p]).site != site
}

/// The input that feeds `site`: its node and its place there. A wire that is held
/// by this end is drawn from it.
pub fn port_of_site(view: &Vec<GNode>, site: u64) -> (out: Option<(usize, usize)>)
    ensures
        match out {
            Some(at) => is_port_of(view@, site, (at.0 as int, at.1 as int)),
            None => forall|i: int, p: int|
                0 <= i < view@.len() && 0 <= p < view@[i].inputs@.len() ==> (
                #[trigger] view@[i].inputs@[p]).site != site,
        },
{
    let mut i: usize = 0;
    while i < view.len()
        invariant
            i <= view.len(),
            forall|k: int, p: int|
                0 <= k < i && 0 <= p < view@[k].inputs@.len() ==> (
                #[trigger] view@[k].inputs@[p]).site != site,
        decreases view.len() - i,
    {
        let mut p: usize = 0;
        while p < view[i].inputs.len()
            invariant
                i < view.len(),
                p <= view[i as int].inputs.len(),
                forall|k: int, q: int|
                    0 <= k < i && 0 <= q < view@[k].inputs@.len() ==> (
                    #[trigger] view@[k].inputs@[q]).site != site,
                forall|q: int| 0 <= q < p ==> (#[trigger] view@[i as int].inputs@[q]).site != site,
            decreases view[i as int].inputs.len() - p,
        {
            if view[i].inputs[p].site == site {
                return Some((i, p));
            }
            p += 1;
        }
        i += 1;
    }
    None
}

/// Every wire that is drawn is one: it starts at the node that its input names.
pub proof fn law_a_drawn_wire_is_there(view: Seq<GNode>, n: int, k: int)
    requires
        0 <= n <= view.len() <= usize::MAX,
        forall|i: int| 0 <= i < view.len() ==> (#[trigger] view[i]).inputs@.len() <= usize::MAX,
        0 <= k < wires_of(view, n).len(),
    ensures
        ({
            let w = wires_of(view, n)[k];
            &&& w.to < view.len()
            &&& w.from < view.len()
            &&& w.port < view[w.to as int].inputs@.len()
            &&& view[w.to as int].inputs@[w.port as int].wired == Some(view[w.from as int].key)
        }),
    decreases n,
{
    let before = wires_of(view, n - 1);
    if k < before.len() {
        law_a_drawn_wire_is_there(view, n - 1, k);
    } else {
        lemma_wires_at(view, n - 1, view[n - 1].inputs@.len() as int, k - before.len());
    }
}

/// Every wire that ends at a node is one.
proof fn lemma_wires_at(view: Seq<GNode>, to: int, n: int, k: int)
    requires
        0 <= to < view.len() <= usize::MAX,
        0 <= n <= view[to].inputs@.len() <= usize::MAX,
        0 <= k < wires_at(view, to, n).len(),
    ensures
        ({
            let w = wires_at(view, to, n)[k];
            &&& w.to == to
            &&& w.from < view.len()
            &&& w.port < n
            &&& view[to].inputs@[w.port as int].wired == Some(view[w.from as int].key)
        }),
    decreases n,
{
    let before = wires_at(view, to, n - 1);
    if k < before.len() {
        lemma_wires_at(view, to, n - 1, k);
    } else {
        let src = view[to].inputs@[n - 1].wired->Some_0;
        lemma_node_has_key(view, src);
    }
}

/// The node that goes by a key has it.
proof fn lemma_node_has_key(view: Seq<GNode>, key: u64)
    ensures
        node_at(view, key) matches Some(i) ==> 0 <= i < view.len() && view[i].key == key,
    decreases view.len(),
{
    if view.len() > 0 && view.last().key != key {
        lemma_node_has_key(view.drop_last(), key);
    }
}

/// Every input that is fed by a node which is there has its wire drawn, from that node.
pub proof fn law_every_wire_is_drawn(view: Seq<GNode>, n: int, to: int, port: int)
    requires
        0 <= to < n <= view.len() <= usize::MAX,
        0 <= port < view[to].inputs@.len() <= usize::MAX,
        view[to].inputs@[port].wired is Some,
        exists|i: int|
            0 <= i < view.len() && (#[trigger] view[i]).key
                == view[to].inputs@[port].wired->Some_0,
    ensures
        exists|k: int|
            0 <= k < wires_of(view, n).len() && (#[trigger] wires_of(view, n)[k]).to == to
                && wires_of(view, n)[k].port == port,
    decreases n,
{
    let before = wires_of(view, n - 1);
    let all = wires_of(view, n);
    if to < n - 1 {
        law_every_wire_is_drawn(view, n - 1, to, port);
        let k = choose|k: int|
            0 <= k < before.len() && (#[trigger] before[k]).to == to && before[k].port == port;
        assert(all[k] == before[k]);
    } else {
        let here = wires_at(view, to, view[to].inputs@.len() as int);
        lemma_wire_at_port(view, to, view[to].inputs@.len() as int, port);
        let k = choose|k: int|
            0 <= k < here.len() && (#[trigger] here[k]).to == to && here[k].port == port;
        assert(all[before.len() + k] == here[k]);
    }
}

/// Every input of a node that is fed by one which is there has its wire.
proof fn lemma_wire_at_port(view: Seq<GNode>, to: int, n: int, port: int)
    requires
        0 <= to < view.len() <= usize::MAX,
        0 <= port < n <= view[to].inputs@.len() <= usize::MAX,
        view[to].inputs@[port].wired is Some,
        exists|i: int|
            0 <= i < view.len() && (#[trigger] view[i]).key
                == view[to].inputs@[port].wired->Some_0,
    ensures
        exists|k: int|
            0 <= k < wires_at(view, to, n).len() && (#[trigger] wires_at(view, to, n)[k]).to == to
                && wires_at(view, to, n)[k].port == port,
    decreases n,
{
    let before = wires_at(view, to, n - 1);
    let all = wires_at(view, to, n);
    if port < n - 1 {
        lemma_wire_at_port(view, to, n - 1, port);
        let k = choose|k: int|
            0 <= k < before.len() && (#[trigger] before[k]).to == to && before[k].port == port;
        assert(all[k] == before[k]);
    } else {
        lemma_node_is_found(view, view[to].inputs@[port].wired->Some_0);
        assert(wire_to(view, to, port).len() == 1);
        assert(all[before.len() as int] == wire_to(view, to, port)[0]);
    }
}

/// A key that a node has is found.
proof fn lemma_node_is_found(view: Seq<GNode>, key: u64)
    requires
        exists|i: int| 0 <= i < view.len() && (#[trigger] view[i]).key == key,
    ensures
        node_at(view, key) is Some,
    decreases view.len(),
{
    if view.last().key != key {
        let i = choose|i: int| 0 <= i < view.len() && (#[trigger] view[i]).key == key;
        assert(view.drop_last()[i].key == key);
        lemma_node_is_found(view.drop_last(), key);
    }
}

// ---- the canvas ------------------------------------------------------------

/// Does the wheel zoom? With a key held it does something else.
pub fn wheel_zooms(scrolled: bool, ctrl: bool, command: bool, shift: bool, pointer: bool) -> (out:
    bool)
    ensures
        out == (scrolled && !ctrl && !command && !shift && pointer),
{
    scrolled && !ctrl && !command && !shift && pointer
}

/// What is written over the canvas: how to begin, while there is hardly anything
/// on it.
pub fn canvas_hint(nodes: usize) -> (out: Option<&'static str>)
    ensures
        nodes > 1 ==> out is None,
        nodes <= 1 ==> (out matches Some(t) && t@ == "right-click to add nodes"@),
{
    if nodes <= 1 {
        Some("right-click to add nodes")
    } else {
        None
    }
}

/// What fills the tab.
pub enum TabBody {
    /// Nothing is open: how to open something.
    Empty,
    Canvas,
    /// The text does not parse: what is wrong, and a way to the text.
    Broken(String),
    Nothing,
}

/// Is this what fills the tab?
pub open spec fn is_tab_body(path: bool, has_ir: bool, err: Option<Seq<char>>, body: TabBody) -> bool {
    if !path {
        body is Empty
    } else if has_ir {
        body is Canvas
    } else {
        match err {
            Some(e) => body matches TabBody::Broken(t) && t@ == "⚠ "@ + e,
            None => body is Nothing,
        }
    }
}

/// What fills the tab.
pub fn tab_body(path: bool, has_ir: bool, err: &Option<String>) -> (out: TabBody)
    ensures
        is_tab_body(path, has_ir, opt_text(*err), out),
{
    if !path {
        return TabBody::Empty;
    }
    if has_ir {
        return TabBody::Canvas;
    }
    match err {
        Some(e) => TabBody::Broken(crate::text::joined("⚠ ", e.as_str())),
        None => TabBody::Nothing,
    }
}

/// The canvas fills the tab exactly while a shader that can be read is open. What is wrong is
/// told of a shader that is open and cannot be read, and how to begin where none is open.
pub proof fn law_the_tab_shows_what_is_open(
    path: bool,
    has_ir: bool,
    err: Option<Seq<char>>,
    body: TabBody,
)
    requires
        is_tab_body(path, has_ir, err, body),
    ensures
        body is Empty <==> !path,
        body is Canvas <==> path && has_ir,
        body is Broken <==> path && !has_ir && err is Some,
        body matches TabBody::Broken(t) ==> t@ == "⚠ "@ + err->Some_0,
{
}

/// A value alone is renamed, and one without a name is given one first.
pub proof fn law_only_values_are_renamed(kind: KeyKind, out: Result<RenamePlan, String>)
    requires
        call_ensures(rename_plan, (kind,), out),
    ensures
        out is Ok <==> kind is Let || kind is Anon,
        out matches Ok(plan) ==> (plan is PromoteAndRename <==> kind is Anon) && (plan is Rename
            <==> kind is Let),
{
}

/// What is dragged is edited live. What could turn a shader that is fine into one that is not is
/// edited strictly, and to take something away or to name it never is.
pub proof fn law_what_is_dragged_is_edited_live(edit: NodeEdit, out: EditManner)
    requires
        call_ensures(edit_manner, (edit,), out),
    ensures
        out is Live <==> edit is PortNumber || edit is KnobValue,
        out is Strict <==> edit is Connect || edit is Swizzle || edit is KnobType,
        out is Loose <==> edit is Disconnect || edit is Rename || edit is RenameTexture
            || edit is RenameKnob || edit is ConstantKind || edit is PortName || edit is Override
            || edit is Blend,
{
}

/// A knob goes over the range that it was given.
pub proof fn law_a_knob_goes_over_its_range(k: &Knob, out: (u32, u32))
    requires
        call_ensures(knob_range, (k,), out),
    ensures
        k.range matches Some(r) ==> out.0 == r.0 && out.1 == r.1,
        k.range is None ==> out.0 == 0 && out.1 != 0,
{
}

/// The wheel zooms only over the canvas and with no key held.
pub proof fn law_a_key_keeps_the_wheel_from_zooming(
    scrolled: bool,
    ctrl: bool,
    command: bool,
    shift: bool,
    pointer: bool,
    out: bool,
)
    requires
        call_ensures(wheel_zooms, (scrolled, ctrl, command, shift, pointer), out),
    ensures
        ctrl || command || shift ==> !out,
        !scrolled || !pointer ==> !out,
        out || ctrl || command || shift || !scrolled || !pointer,
{
}

/// A graph that holds no more than its end is hinted at; once there is a node the hint goes.
pub proof fn law_an_empty_canvas_has_a_hint(nodes: usize, out: Option<&'static str>)
    requires
        call_ensures(canvas_hint, (nodes,), out),
    ensures
        out is Some <==> nodes < 2,
{
}

/// An act forgets where nodes stood only where it arranges them, and touches nothing else but
/// the selection.
pub proof fn law_only_arranging_forgets_places(s: &mut ShaderGraphState, act: Act, out: Work)
    requires
        old(s).pos_cache.wf(),
        call_ensures(ShaderGraphState::begin_act, (s, act), out),
    ensures
        act is Arrange ==> final(s).pos_cache@ == Map::<Seq<char>, Spot>::empty(),
        !(act is Arrange) ==> final(s).pos_cache@ == old(s).pos_cache@,
        final(s).history == old(s).history && final(s).view == old(s).view && final(s).path == old(
            s,
        ).path && final(s).wire == old(s).wire,
{
}

/// Nodes that were made are handed back and can be undone; where they could not be made it is
/// said why, and nothing is changed.
pub proof fn law_what_was_made_is_handed_back(
    s: &mut ShaderGraphState,
    outcome: Result<Vec<u64>, String>,
    out: Option<Vec<u64>>,
)
    requires
        call_ensures(ShaderGraphState::commit_returning, (s, outcome), out),
    ensures
        out is Some <==> old(s).has_ir && outcome is Ok,
        out matches Some(keys) ==> outcome == Ok::<Vec<u64>, String>(keys) && final(s).history.dirty,
        !old(s).has_ir ==> *final(s) == *old(s),
        out is None ==> final(s).history == old(s).history,
        old(s).has_ir && outcome is Err ==> final(s).status is Some && final(s).status->Some_0.text@ == outcome->Err_0@,
        final(s).sel == old(s).sel && final(s).view == old(s).view,
{
}

/// A colour is no row of numbers; any other knob has as many as its type.
pub proof fn law_a_colour_is_no_row_of_numbers(k: &Knob, out: Option<usize>)
    requires
        call_ensures(knob_lanes, (k,), out),
    ensures
        out is None <==> k.is_color,
        out matches Some(n) ==> n == lane_count(k.ty),
{
}

/// An edit of a knob touches that knob alone, and none where there is no such knob.
pub proof fn law_one_knob_is_edited(
    knobs: &mut Vec<Knob>,
    u: usize,
    e: KnobEdit,
    out: Result<(), String>,
    j: int,
)
    requires
        lane_fits(e),
        call_ensures(edit_knob, (knobs, u, e), out),
        0 <= j < old(knobs)@.len(),
    ensures
        final(knobs)@.len() == old(knobs)@.len(),
        out is Ok <==> u < old(knobs)@.len(),
        j != u ==> final(knobs)@[j] == old(knobs)@[j],
        out is Err ==> final(knobs)@ == old(knobs)@,
{
    if u < old(knobs)@.len() {
        assert(final(knobs)@.len() == old(knobs)@.update(u as int, final(knobs)@[u as int]).len());
    }
}

} // verus!
