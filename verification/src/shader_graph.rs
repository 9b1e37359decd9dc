//! The graph of a shader as it is edited: what an edit does to the file and to
//! the history, what is selected, and what the wires, the nodes and the keys do.
//!
//! The file is the one source of truth. An edit changes the shader that is held
//! and then prints it to the file; text that is changed elsewhere comes back into
//! the graph. Undoing goes back through the texts that the file had.

use crate::key_sets::{add_all, is_listing, kept, listed, set_of};
use crate::lists::is_among;
use crate::paths::{file_name, name_in};
use crate::script_meta::opt_text;
use crate::shader_graph_view::{
    freeze_positions, frozen_spot, is_previewable, map_texts, noted_upto, previewable,
    sink_path_keys, sink_paths, GNode, KeyKind, Port, Spot, ValueType,
};
use crate::shader_preview::Stage;
use crate::table::Table;
use crate::text::{
    chars_of, copy_of, decimal, decimal_text, joined, same_text, text_of, texts, trim, trimmed,
};
use std::collections::BTreeSet;
use std::collections::HashMap;
use vstd::prelude::*;

verus! {

broadcast use {
    vstd::std_specs::hash::group_hash_axioms,
    vstd::std_specs::btree::group_btree_axioms,
    vstd::laws_cmp::group_laws_cmp,
};

// ---- history ---------------------------------------------------------------

/// How many texts can be gone back to.
pub const MAX_UNDO: usize = 64;

/// The text of the file, and those that it had.
pub struct History {
    /// The text of the file.
    pub src: String,
    pub undo: Vec<String>,
    pub redo: Vec<String>,
    /// The text from before the edit that is under way.
    pub pending: Option<String>,
    /// Does the shader that is held differ from the file?
    pub dirty: bool,
}

/// A history as plain data.
#[verifier::ext_equal]
pub struct HistoryModel {
    pub src: Seq<char>,
    pub undo: Seq<Seq<char>>,
    pub redo: Seq<Seq<char>>,
    pub pending: Option<Seq<char>>,
    pub dirty: bool,
}

impl View for History {
    type V = HistoryModel;

    open spec fn view(&self) -> HistoryModel {
        HistoryModel {
            src: self.src@,
            undo: texts(self.undo@),
            redo: texts(self.redo@),
            pending: opt_text(self.pending),
            dirty: self.dirty,
        }
    }
}

impl HistoryModel {
    /// An edit is about to begin: the text from before it is kept.
    pub open spec fn begun(self) -> HistoryModel {
        HistoryModel {
            pending: match self.pending {
                Some(p) => Some(p),
                None => Some(self.src),
            },
            ..self
        }
    }

    /// The shader was edited.
    pub open spec fn touched(self) -> HistoryModel {
        HistoryModel { dirty: true, ..self }
    }

    /// The texts that can be gone back to, with one more. The oldest goes where
    /// there would be too many.
    pub open spec fn with_undo(self, prev: Seq<char>) -> Seq<Seq<char>> {
        if self.undo.len() >= MAX_UNDO {
            self.undo.push(prev).skip(1)
        } else {
            self.undo.push(prev)
        }
    }

    /// The shader was printed to the file: where that changed the text, there is
    /// one more to go back to, and none to go forward to.
    pub open spec fn saved(self, printed: Seq<char>) -> HistoryModel {
        match self.pending {
            Some(prev) if prev != printed => HistoryModel {
                undo: self.with_undo(prev),
                redo: seq![],
                pending: None,
                dirty: false,
                ..self
            },
            _ => HistoryModel { pending: None, dirty: false, ..self },
        }
    }

    /// The text of the file was read.
    pub open spec fn read(self, src: Seq<char>) -> HistoryModel {
        HistoryModel { src, ..self }
    }

    /// The text before this one is taken up.
    pub open spec fn undone(self) -> HistoryModel {
        if self.undo.len() == 0 {
            self
        } else {
            HistoryModel { undo: self.undo.drop_last(), redo: self.redo.push(self.src), ..self }
        }
    }

    /// The text behind this one is taken up.
    pub open spec fn redone(self) -> HistoryModel {
        if self.redo.len() == 0 {
            self
        } else {
            HistoryModel { redo: self.redo.drop_last(), undo: self.undo.push(self.src), ..self }
        }
    }

    /// The file was put back to another text.
    pub open spec fn restored(self) -> HistoryModel {
        HistoryModel { pending: None, dirty: false, ..self }
    }

    /// No more texts are kept than there is room for.
    pub open spec fn is_bounded(self) -> bool {
        self.undo.len() + self.redo.len() <= MAX_UNDO
    }
}

impl History {
    /// Nothing was edited yet.
    pub fn new() -> (out: Self)
        ensures
            out@ == (HistoryModel {
                src: seq![],
                undo: seq![],
                redo: seq![],
                pending: None,
                dirty: false,
            }),
    {
        let out: History = History {
            src: String::new(),
            undo: Vec::new(),
            redo: Vec::new(),
            pending: None,
            dirty: false,
        };
        assert(out.src@ =~= seq![]);
        assert(texts(out.undo@) =~= seq![]);
        out
    }

    /// An edit is about to begin.
    pub fn begin(&mut self)
        ensures
            final(self)@ == old(self)@.begun(),
    {
        if self.pending.is_none() {
            self.pending = Some(copy_of(self.src.as_str()));
        }
    }

    /// The shader was printed to the file.
    pub fn save(&mut self, printed: &str)
        ensures
            final(self)@ == old(self)@.saved(printed@),
    {
        let ghost was = self@;
        let mut prev: Option<String> = None;
        core::mem::swap(&mut prev, &mut self.pending);
        self.dirty = false;
        match prev {
            Some(p) => {
                if !same_text(p.as_str(), printed) {
                    let ghost before = self.undo@;
                    self.undo.push(p);
                    assert(texts(self.undo@) =~= texts(before).push(p@));
                    if self.undo.len() > MAX_UNDO {
                        let _oldest: String = self.undo.remove(0);
                        assert(texts(self.undo@) =~= texts(before).push(p@).skip(1));
                    }
                    self.redo.clear();
                    assert(texts(self.redo@) =~= seq![]);
                }
            },
            None => {},
        }
        assert(self@ =~= was.saved(printed@));
    }

    /// The text of the file was read.
    pub fn read(&mut self, src: &str)
        ensures
            final(self)@ == old(self)@.read(src@),
    {
        self.src = copy_of(src);
    }

    /// Takes up the text before this one, to be put into the file.
    pub fn undo(&mut self) -> (out: Option<String>)
        ensures
            final(self)@ == old(self)@.undone(),
            opt_text(out) == if old(self)@.undo.len() > 0 {
                Some(old(self)@.undo.last())
            } else {
                None
            },
    {
        let ghost undo = self.undo@;
        let ghost redo = self.redo@;
        let prev: Option<String> = self.undo.pop();
        match prev {
            Some(p) => {
                let cur: String = copy_of(self.src.as_str());
                self.redo.push(cur);
                proof {
                    assert(texts(self.undo@) =~= texts(undo).drop_last());
                    assert(texts(self.redo@) =~= texts(redo).push(self.src@));
                    assert(texts(undo).last() == undo.last()@);
                }
                Some(p)
            },
            None => {
                assert(texts(undo).len() == 0);
                None
            },
        }
    }

    /// Takes up the text behind this one, to be put into the file.
    pub fn redo(&mut self) -> (out: Option<String>)
        ensures
            final(self)@ == old(self)@.redone(),
            opt_text(out) == if old(self)@.redo.len() > 0 {
                Some(old(self)@.redo.last())
            } else {
                None
            },
    {
        let ghost undo = self.undo@;
        let ghost redo = self.redo@;
        let next: Option<String> = self.redo.pop();
        match next {
            Some(p) => {
                let cur: String = copy_of(self.src.as_str());
                self.undo.push(cur);
                proof {
                    assert(texts(self.redo@) =~= texts(redo).drop_last());
                    assert(texts(self.undo@) =~= texts(undo).push(self.src@));
                    assert(texts(redo).last() == redo.last()@);
                }
                Some(p)
            },
            None => {
                assert(texts(redo).len() == 0);
                None
            },
        }
    }

    /// The file was put back to another text.
    pub fn restore(&mut self)
        ensures
            final(self)@ == old(self)@.restored(),
    {
        self.pending = None;
        self.dirty = false;
    }
}

/// Undoing an edit gives back the text from before it.
pub proof fn law_undo_gives_back_what_was(m: HistoryModel, printed: Seq<char>)
    requires
        m.pending is None,
        printed != m.src,
    ensures
        ({
            let edited = m.begun().touched().saved(printed).read(printed);
            &&& edited.undo.len() > 0
            &&& edited.undo.last() == m.src
            &&& edited.undone().restored().read(edited.undo.last()).src == m.src
        }),
{
}

/// Redoing what was undone gives back the text and the history as they were.
pub proof fn law_redo_takes_undo_back(m: HistoryModel)
    requires
        m.undo.len() > 0,
        m.pending is None,
        !m.dirty,
    ensures
        ({
            let back = m.undone().restored().read(m.undo.last());
            &&& back.redo.len() > 0
            &&& back.redo.last() == m.src
            &&& back.redone().restored().read(back.redo.last()) =~= m
        }),
{
    let back = m.undone().restored().read(m.undo.last());
    let again = back.redone().restored().read(back.redo.last());
    assert(again.undo =~= m.undo);
    assert(again.redo =~= m.redo);
}

/// A new edit leaves nothing to go forward to, and an edit that changes nothing
/// leaves no trace.
pub proof fn law_an_edit_ends_redo(m: HistoryModel, printed: Seq<char>)
    requires
        m.pending is None,
    ensures
        printed != m.src ==> m.begun().saved(printed).redo.len() == 0,
        printed == m.src ==> m.begun().touched().saved(printed) =~= (HistoryModel {
            dirty: false,
            ..m
        }),
{
}

/// However much is edited, undone and redone, no more than so many texts are
/// kept.
pub proof fn law_the_history_is_bounded(m: HistoryModel, printed: Seq<char>)
    requires
        m.is_bounded(),
    ensures
        m.begun().is_bounded(),
        m.saved(printed).is_bounded(),
        m.read(printed).is_bounded(),
        m.undone().is_bounded(),
        m.redone().is_bounded(),
        m.restored().is_bounded(),
{
}

/// The text from before an edit is kept when the edit begins, and every further step of the
/// same edit leaves it. Beginning an edit changes nothing else.
pub proof fn law_an_edit_keeps_the_text_from_before_it(m: HistoryModel)
    ensures
        m.pending is None ==> m.begun().pending == Some(m.src),
        m.pending is Some ==> m.begun() == m,
        m.begun().touched().begun() == m.begun().touched(),
        m.begun().src == m.src && m.begun().undo == m.undo && m.begun().redo == m.redo,
        m.begun().dirty == m.dirty,
        m.touched().dirty,
        m.touched().pending == m.pending,
        m.touched().undo == m.undo && m.touched().redo == m.redo,
{
}

/// What can be gone back to is the text from before the edit, and behind it the texts that
/// could be gone back to already, in order; only where there is no room the oldest goes.
pub proof fn law_the_oldest_text_goes_first(m: HistoryModel, prev: Seq<char>)
    requires
        m.undo.len() <= MAX_UNDO,
    ensures
        m.with_undo(prev).last() == prev,
        m.undo.len() < MAX_UNDO ==> m.with_undo(prev).drop_last() == m.undo,
        m.undo.len() == MAX_UNDO ==> m.with_undo(prev).drop_last() == m.undo.skip(1),
        m.with_undo(prev).len() <= MAX_UNDO,
{
    assert(m.undo.len() < MAX_UNDO ==> m.with_undo(prev).drop_last() =~= m.undo);
    assert(m.undo.len() == MAX_UNDO ==> m.with_undo(prev).drop_last() =~= m.undo.skip(1));
}

/// Once the shader was printed no edit is under way and nothing differs from the file; the
/// same once the file was put back. Neither reads the file.
pub proof fn law_a_printed_shader_is_saved(m: HistoryModel, printed: Seq<char>)
    ensures
        m.saved(printed).pending is None && !m.saved(printed).dirty,
        m.saved(printed).src == m.src,
        m.pending is None || m.pending == Some(printed) ==> m.saved(printed).undo == m.undo
            && m.saved(printed).redo == m.redo,
        m.restored().pending is None && !m.restored().dirty,
        m.restored().src == m.src && m.restored().undo == m.undo && m.restored().redo == m.redo,
        m.read(printed).src == printed,
        m.read(printed) == (HistoryModel { src: printed, ..m }),
{
}

/// With nothing to go back to undoing does nothing, and with nothing to go forward to redoing
/// does nothing; else one text moves from the one side to the other.
pub proof fn law_one_text_is_taken_up_at_a_time(m: HistoryModel)
    ensures
        m.undo.len() == 0 ==> m.undone() == m,
        m.redo.len() == 0 ==> m.redone() == m,
        m.undo.len() > 0 ==> m.undone().undo == m.undo.drop_last() && m.undone().redo.last()
            == m.src && m.undone().redo.drop_last() == m.redo,
        m.redo.len() > 0 ==> m.redone().redo == m.redo.drop_last() && m.redone().undo.last()
            == m.src && m.redone().undo.drop_last() == m.undo,
        m.undone().undo.len() + m.undone().redo.len() == m.undo.len() + m.redo.len(),
        m.redone().undo.len() + m.redone().redo.len() == m.undo.len() + m.redo.len(),
{
    assert(m.undo.len() > 0 ==> m.undone().redo.drop_last() =~= m.redo);
    assert(m.redo.len() > 0 ==> m.redone().undo.drop_last() =~= m.undo);
}

// ---- the shader that is open -----------------------------------------------

/// A wire that is being drawn.
#[derive(Clone, Copy, Debug, PartialEq, Eq, Structural)]
pub enum WireDrag {
    /// From the output of this node: it looks for an input.
    FromOut(u64),
    /// From this input: it looks for a node.
    FromIn(u64),
}

/// The wire that is in hand once an input was grabbed.
pub open spec fn grabbed(port: Port) -> WireDrag {
    match port.wired {
        Some(src) => WireDrag::FromOut(src),
        None => WireDrag::FromIn(port.site),
    }
}

/// The node and the input that are connected once a wire is let go.
pub open spec fn connection(
    wire: Option<WireDrag>,
    over_input: Option<u64>,
    over_output: Option<u64>,
) -> Option<(u64, u64)> {
    match wire {
        Some(WireDrag::FromOut(src)) => match over_input {
            Some(site) => Some((src, site)),
            None => None,
        },
        Some(WireDrag::FromIn(site)) => match over_output {
            Some(src) => Some((src, site)),
            None => None,
        },
        None => None,
    }
}

/// What is said for a while, and for how many tenths of a second.
pub struct Toast {
    pub text: String,
    pub tenths: u32,
}

/// Is this what is said?
pub open spec fn is_toast(t: Option<Toast>, text: Seq<char>, tenths: u32) -> bool {
    t matches Some(t) && t.text@ == text && t.tenths == tenths
}

/// A shader that is open as a graph.
pub struct ShaderGraphState {
    pub path: Option<String>,
    pub history: History,
    /// Is there a shader (or did its text not even parse)?
    pub has_ir: bool,
    pub view: Vec<GNode>,
    /// Where nodes stood, by their names.
    pub pos_cache: Table<Spot>,
    /// The first thing that is wrong with it, and the node where.
    pub err: Option<String>,
    pub err_key: Option<u64>,
    pub sel: BTreeSet<u64>,
    pub wire: Option<WireDrag>,
    /// The nodes that are being dragged.
    pub drag: Option<Vec<u64>>,
    /// Is a box being drawn round nodes?
    pub box_sel: bool,
    /// The field that is being typed into, and what it holds.
    pub field_buf: Option<(u64, String)>,
    pub status: Option<Toast>,
    /// The nodes whose picture is hidden.
    pub pv_hidden: BTreeSet<u64>,
}

/// The keys of some nodes.
pub open spec fn keys_in(view: Seq<GNode>) -> Seq<u64> {
    view.map_values(|n: GNode| n.key)
}

/// The keys of some nodes.
fn keys_of_view(view: &Vec<GNode>) -> (out: Vec<u64>)
    ensures
        out@ == keys_in(view@),
{
    let mut out: Vec<u64> = Vec::new();
    let mut i: usize = 0;
    while i < view.len()
        invariant
            i <= view.len(),
            out@ == keys_in(view@.take(i as int)),
        decreases view.len() - i,
    {
        out.push(view[i].key);
        assert(out@ =~= keys_in(view@.take(i + 1)));
        i += 1;
    }
    assert(view@.take(i as int) =~= view@);
    out
}

/// A range of the text.
#[derive(Clone, Copy, Debug, PartialEq, Eq, Structural)]
pub struct Span {
    pub start: u32,
    pub end: u32,
}

impl Span {
    /// Is the place `at` in the range? An empty range holds its own start.
    pub open spec fn holds(self, at: u32) -> bool {
        self.start <= at && (at < self.end || at == self.start)
    }

    /// How long the range is.
    pub open spec fn width(self) -> int {
        if self.end >= self.start {
            self.end - self.start
        } else {
            0
        }
    }
}

/// Is `i` the first of the nodes with the smallest range that holds `at`?
pub open spec fn is_pinned(spans: Seq<Option<Span>>, at: u32, i: int) -> bool {
    0 <= i < spans.len() && (spans[i] matches Some(s) && s.holds(at)) && forall|j: int|
        0 <= j < spans.len() && ((#[trigger] spans[j]) matches Some(t) && t.holds(at))
            ==> spans[i]->Some_0.width() <= spans[j]->Some_0.width() && (
        spans[i]->Some_0.width() == spans[j]->Some_0.width() ==> i <= j)
}

/// Does no range hold `at`?
pub open spec fn is_unpinned(spans: Seq<Option<Span>>, at: u32) -> bool {
    forall|j: int| 0 <= j < spans.len() ==> !((#[trigger] spans[j]) matches Some(t) && t.holds(at))
}

/// The node that something wrong at `at` is pinned to: the one with the smallest
/// range that holds it. `spans` are the ranges of the nodes that have one.
pub fn pin_error(spans: &Vec<Option<Span>>, at: u32) -> (out: Option<usize>)
    ensures
        match out {
            Some(i) => is_pinned(spans@, at, i as int),
            None => is_unpinned(spans@, at),
        },
{
    let mut best: Option<(usize, u32)> = None;
    let mut i: usize = 0;
    while i < spans.len()
        invariant
            i <= spans.len(),
            match best {
                Some((b, w)) => b < i && is_pinned(spans@.take(i as int), at, b as int) && w
                    == spans@[b as int]->Some_0.width(),
                None => is_unpinned(spans@.take(i as int), at),
            },
        decreases spans.len() - i,
    {
        let ghost before = spans@.take(i as int);
        let ghost after = spans@.take(i + 1);
        assert(forall|j: int| 0 <= j < i ==> before[j] == #[trigger] after[j]);
        assert(after[i as int] == spans@[i as int]);
        match spans[i] {
            Some(s) => {
                if s.start <= at && (at < s.end || at == s.start) {
                    let w: u32 = if s.end >= s.start {
                        s.end - s.start
                    } else {
                        0
                    };
                    let smaller: bool = match best {
                        Some((_, bw)) => w < bw,
                        None => true,
                    };
                    if smaller {
                        best = Some((i, w));
                    }
                }
            },
            None => {},
        }
        proof {
            match best {
                Some((b, w)) => {
                    assert forall|j: int|
                        0 <= j < after.len() && ((#[trigger] after[j]) matches Some(t) && t.holds(
                            at,
                        )) implies after[b as int]->Some_0.width() <= after[j]->Some_0.width() && (
                    after[b as int]->Some_0.width() == after[j]->Some_0.width() ==> b <= j) by {
                        if j < i {
                            assert(before[j] == after[j]);
                        }
                    }
                },
                None => {
                    assert forall|j: int| 0 <= j < after.len() implies !((
                    #[trigger] after[j]) matches Some(t) && t.holds(at)) by {
                        if j < i {
                            assert(before[j] == after[j]);
                        }
                    }
                },
            }
        }
        i += 1;
    }
    assert(spans@.take(i as int) =~= spans@);
    match best {
        Some((b, _)) => Some(b),
        None => None,
    }
}

/// Something wrong with a shader that did parse.
pub struct Fault {
    pub line: u32,
    pub column: u32,
    pub message: String,
    /// Where in the text it is.
    pub at: u32,
}

/// A place in a text and what is wrong there.
pub open spec fn located(line: u32, column: u32, message: Seq<char>) -> Seq<char> {
    decimal(line as nat) + ":"@ + decimal(column as nat) + ": "@ + message
}

/// A place in a text and what is wrong there.
fn located_text(line: u32, column: u32, message: &str) -> (out: String)
    ensures
        out@ == located(line, column, message@),
{
    let a: String = joined(decimal_text(line as u64).as_str(), ":");
    let b: String = joined(a.as_str(), decimal_text(column as u64).as_str());
    joined(joined(b.as_str(), ": ").as_str(), message)
}

/// The node that a fault is pinned to.
pub open spec fn is_err_key(
    view: Seq<GNode>,
    spans: Seq<Option<Span>>,
    fault: Option<Fault>,
    key: Option<u64>,
) -> bool {
    match fault {
        Some(f) => match key {
            Some(k) => exists|i: int| #[trigger] is_pinned(spans, f.at, i) && view[i].key == k,
            None => is_unpinned(spans, f.at),
        },
        None => key is None,
    }
}

/// What is done once an edit was tried.
#[derive(Clone, Copy, Debug, PartialEq, Eq, Structural)]
pub enum CommitStep {
    /// There is no shader: nothing was tried.
    Nothing,
    /// The shader is put back to what it was.
    Revert,
    /// The shader is printed to the file at once.
    Flush,
}

/// What the check of an edited shader found.
pub enum CheckOutcome {
    Fine,
    /// It is wrong. The first thing that is, where the check names one.
    Wrong { message: Option<String> },
}

/// What is said of an edit that was put back.
pub open spec fn refused_edit(message: Option<String>) -> Seq<char> {
    "✋ "@ + match message {
        Some(m) => m@,
        None => "type error"@,
    }
}

/// What is done with an edit.
pub open spec fn commit_step(
    has_ir: bool,
    was_fine: bool,
    edit: Result<(), String>,
    strict: bool,
    check: CheckOutcome,
) -> CommitStep {
    if !has_ir {
        CommitStep::Nothing
    } else if edit is Err || (strict && was_fine && check is Wrong) {
        CommitStep::Revert
    } else {
        CommitStep::Flush
    }
}

/// What is done with the file.
#[derive(Clone, Copy, Debug, PartialEq, Eq, Structural)]
pub enum FlushStep {
    Nothing,
    /// Print the shader to the file.
    Write,
}

/// A field of the state that everything but `status` and `history` keeps.
pub open spec fn same_but_edit(a: ShaderGraphState, b: ShaderGraphState) -> bool {
    a == (ShaderGraphState { history: a.history, status: a.status, ..b })
}

/// Was nothing read, edited or selected yet?
pub open spec fn is_untouched(s: ShaderGraphState) -> bool {
    &&& s.history@ == (HistoryModel {
        src: seq![],
        undo: seq![],
        redo: seq![],
        pending: None,
        dirty: false,
    })
    &&& !s.has_ir
    &&& s.view@ == Seq::<GNode>::empty()
    &&& s.pos_cache.wf()
    &&& s.pos_cache@ == Map::<Seq<char>, Spot>::empty()
    &&& s.err is None
    &&& s.err_key is None
    &&& s.sel@ == Set::<u64>::empty()
    &&& s.wire is None
    &&& s.drag is None
    &&& !s.box_sel
    &&& s.field_buf is None
    &&& s.status is None
    &&& s.pv_hidden@ == Set::<u64>::empty()
}

/// What is done to open a shader.
pub struct OpenPlan {
    /// The file to which the shader that was open is printed, before all else: it
    /// had an edit that was not saved.
    pub write: Option<String>,
    /// The file of the other shader is read, now that it is the open one.
    pub read: bool,
    /// The tab is brought to the front.
    pub focus: bool,
}

impl ShaderGraphState {
    /// Nothing is open.
    pub fn new() -> (out: Self)
        ensures
            out.path is None,
            is_untouched(out),
    {
        ShaderGraphState {
            path: None,
            history: History::new(),
            has_ir: false,
            view: Vec::new(),
            pos_cache: Table::new(),
            err: None,
            err_key: None,
            sel: BTreeSet::new(),
            wire: None,
            drag: None,
            box_sel: false,
            field_buf: None,
            status: None,
            pv_hidden: BTreeSet::new(),
        }
    }

    /// Is `path` another shader than the one that is open? Then that is printed
    /// to its file, and the other one is read.
    pub fn opens(&self, path: &str) -> (out: bool)
        ensures
            out == (opt_text(self.path) != Some(path@)),
    {
        match &self.path {
            Some(p) => !same_text(p.as_str(), path),
            None => true,
        }
    }

    /// Opens the shader at `path`. One that is open already stays as it is; any other
    /// starts with nothing selected and nothing to undo, after the unsaved edit of
    /// the one before went to the file of that one. `docked` says whether there is a
    /// tab to bring to the front.
    pub fn open_shader_in_graph(&mut self, path: &str, docked: bool) -> (out: OpenPlan)
        ensures
            out.focus == docked,
            if opt_text(old(self).path) == Some(path@) {
                out.write is None && !out.read && *final(self) == *old(self)
            } else {
                &&& opt_text(out.write) == if old(self).history.dirty && old(self).has_ir {
                    opt_text(old(self).path)
                } else {
                    None
                }
                &&& out.read
                &&& opt_text(final(self).path) == Some(path@)
                &&& is_untouched(*final(self))
            },
    {
        if !self.opens(path) {
            return OpenPlan { write: None, read: false, focus: docked };
        }
        let write: Option<String> = match self.flush(true, false) {
            FlushStep::Write => match &self.path {
                Some(p) => Some(copy_of(p.as_str())),
                None => None,
            },
            FlushStep::Nothing => None,
        };
        *self = ShaderGraphState { path: Some(copy_of(path)), ..ShaderGraphState::new() };
        OpenPlan { write, read: true, focus: docked }
    }

    /// The file could not be read.
    pub fn unreadable(&mut self, why: &str)
        ensures
            old(self).path is None ==> *final(self) == *old(self),
            old(self).path matches Some(path) ==> {
                &&& opt_text(final(self).err) == Some("can't read "@ + path@ + ": "@ + why@)
                &&& final(self).err_key is None
                &&& !final(self).has_ir
                &&& final(self).view@ == Seq::<GNode>::empty()
                &&& *final(self) == (ShaderGraphState {
                    err: final(self).err,
                    err_key: None,
                    has_ir: false,
                    view: final(self).view,
                    ..*old(self)
                })
            },
    {
        let text: Option<String> = match &self.path {
            Some(p) => Some(
                joined(joined(joined("can't read ", p.as_str()).as_str(), ": ").as_str(), why),
            ),
            None => None,
        };
        if text.is_some() {
            self.err = text;
            self.err_key = None;
            self.has_ir = false;
            self.view.clear();
        }
    }

    /// The text was read, and does not parse.
    pub fn unparsed(&mut self, src: &str, line: u32, column: u32, message: &str)
        ensures
            final(self).history@ == old(self).history@.read(src@),
            opt_text(final(self).err) == Some(
                located(line, column, message@) + " — fix it in the text view"@,
            ),
            final(self).err_key is None,
            !final(self).has_ir,
            final(self).view@ == Seq::<GNode>::empty(),
            *final(self) == (ShaderGraphState {
                history: final(self).history,
                err: final(self).err,
                err_key: None,
                has_ir: false,
                view: final(self).view,
                ..*old(self)
            }),
    {
        self.history.read(src);
        let text: String = located_text(line, column, message);
        self.err = Some(joined(text.as_str(), " — fix it in the text view"));
        self.err_key = None;
        self.has_ir = false;
        self.view.clear();
    }

    /// The text was read and parsed. `view` are the nodes as they are laid out,
    /// `named` the names of them that survive rewiring, and `spans` the ranges of
    /// those that have one. What is selected and hidden stays, as far as those
    /// nodes are still there.
    pub fn parsed(
        &mut self,
        src: &str,
        fault: &Option<Fault>,
        view: Vec<GNode>,
        named: &HashMap<u64, String>,
        spans: &Vec<Option<Span>>,
    )
        requires
            spans@.len() == view@.len(),
            old(self).pos_cache.wf(),
        ensures
            final(self).pos_cache.wf(),
            final(self).history@ == old(self).history@.read(src@),
            final(self).has_ir,
            opt_text(final(self).err) == match *fault {
                Some(f) => Some(located(f.line, f.column, f.message@)),
                None => None,
            },
            is_err_key(view@, spans@, *fault, final(self).err_key),
            final(self).view@.len() == view@.len(),
            forall|i: int|
                0 <= i < view@.len() ==> #[trigger] final(self).view@[i] == (GNode {
                    pos: frozen_spot(
                        view@,
                        map_texts(named@),
                        sink_paths(view@),
                        old(self).pos_cache@,
                        i,
                    ),
                    ..view@[i]
                }),
            final(self).pos_cache@ == noted_upto(
                view@,
                map_texts(named@),
                sink_paths(view@),
                old(self).pos_cache@,
                view@.len() as int,
            ),
            final(self).sel@ == old(self).sel@.intersect(keys_in(view@).to_set()),
            final(self).pv_hidden@ == old(self).pv_hidden@.intersect(keys_in(view@).to_set()),
            *final(self) == (ShaderGraphState {
                history: final(self).history,
                has_ir: true,
                err: final(self).err,
                err_key: final(self).err_key,
                view: final(self).view,
                pos_cache: final(self).pos_cache,
                sel: final(self).sel,
                pv_hidden: final(self).pv_hidden,
                ..*old(self)
            }),
    {
        self.history.read(src);
        match fault {
            Some(f) => {
                self.err = Some(located_text(f.line, f.column, f.message.as_str()));
                match pin_error(spans, f.at) {
                    Some(i) => {
                        self.err_key = Some(view[i].key);
                        assert(is_pinned(spans@, f.at, i as int));
                    },
                    None => {
                        self.err_key = None;
                    },
                }
            },
            None => {
                self.err = None;
                self.err_key = None;
            },
        }
        self.has_ir = true;
        self.place(view, named);
        let keys: Vec<u64> = keys_of_view(&self.view);
        assert(keys@ =~= keys_in(view@));
        self.sel = kept(&self.sel, &keys);
        self.pv_hidden = kept(&self.pv_hidden, &keys);
    }

    /// The nodes are laid out anew: each is put where it stands.
    pub fn place(&mut self, view: Vec<GNode>, named: &HashMap<u64, String>)
        requires
            old(self).pos_cache.wf(),
        ensures
            final(self).pos_cache.wf(),
            final(self).view@.len() == view@.len(),
            forall|i: int|
                0 <= i < view@.len() ==> #[trigger] final(self).view@[i] == (GNode {
                    pos: frozen_spot(
                        view@,
                        map_texts(named@),
                        sink_paths(view@),
                        old(self).pos_cache@,
                        i,
                    ),
                    ..view@[i]
                }),
            final(self).pos_cache@ == noted_upto(
                view@,
                map_texts(named@),
                sink_paths(view@),
                old(self).pos_cache@,
                view@.len() as int,
            ),
            *final(self) == (ShaderGraphState {
                view: final(self).view,
                pos_cache: final(self).pos_cache,
                ..*old(self)
            }),
    {
        let mut nodes: Vec<GNode> = view;
        let pathed: HashMap<u64, String> = sink_path_keys(&nodes);
        freeze_positions(&mut nodes, named, &pathed, &mut self.pos_cache);
        self.view = nodes;
    }

    /// A knob was turned. Have the nodes to be laid out anew? The shader is
    /// printed to the file once the pointer is let go.
    pub fn live(&mut self, edit: &Result<(), String>) -> (out: bool)
        ensures
            same_but_edit(*final(self), *old(self)),
            if !old(self).has_ir {
                !out && *final(self) == *old(self)
            } else {
                match *edit {
                    Ok(_) => out && final(self).history@ == old(self).history@.begun().touched()
                        && final(self).status == old(self).status,
                    Err(why) => !out && final(self).history@ == old(self).history@.begun()
                        && is_toast(final(self).status, why@, 30),
                }
            },
    {
        if !self.has_ir {
            return false;
        }
        self.history.begin();
        match edit {
            Ok(_) => {
                self.history.dirty = true;
                true
            },
            Err(why) => {
                self.status = Some(Toast { text: copy_of(why.as_str()), tenths: 30 });
                false
            },
        }
    }

    /// An edit was tried, and what came of it was checked. An edit that fails is
    /// put back. A `strict` one is put back too where it breaks a shader that was
    /// fine.
    pub fn commit(&mut self, edit: &Result<(), String>, strict: bool, check: &CheckOutcome) -> (out:
        CommitStep)
        ensures
            out == commit_step(old(self).has_ir, old(self).err is None, *edit, strict, *check),
            same_but_edit(*final(self), *old(self)),
            out is Nothing ==> *final(self) == *old(self),
            out is Flush ==> final(self).history@ == old(self).history@.begun().touched()
                && final(self).status == old(self).status,
            out is Revert ==> final(self).history == old(self).history && match *edit {
                Err(why) => is_toast(final(self).status, why@, 30),
                Ok(_) => *check matches CheckOutcome::Wrong { message } && is_toast(
                    final(self).status,
                    refused_edit(message),
                    35,
                ),
            },
    {
        if !self.has_ir {
            return CommitStep::Nothing;
        }
        match edit {
            Err(why) => {
                self.status = Some(Toast { text: copy_of(why.as_str()), tenths: 30 });
                return CommitStep::Revert;
            },
            Ok(_) => {},
        }
        if strict && self.err.is_none() {
            match check {
                CheckOutcome::Wrong { message } => {
                    let text: String = match message {
                        Some(m) => joined("✋ ", m.as_str()),
                        None => joined("✋ ", "type error"),
                    };
                    self.status = Some(Toast { text, tenths: 35 });
                    return CommitStep::Revert;
                },
                CheckOutcome::Fine => {},
            }
        }
        self.history.begin();
        self.history.dirty = true;
        CommitStep::Flush
    }

    /// Is the shader printed to its file? While the pointer is down it is not,
    /// unless it has to be.
    pub fn flush(&mut self, force: bool, pointer_down: bool) -> (out: FlushStep)
        ensures
            out is Write <==> old(self).history.dirty && (force || !pointer_down) && old(self).path is Some && old(self).has_ir,
            same_but_edit(*final(self), *old(self)),
            final(self).status == old(self).status,
            final(self).history@ == if old(self).history.dirty && (force || !pointer_down) && !(old(self).path is Some && old(self).has_ir) {
                HistoryModel { dirty: false, ..old(self).history@ }
            } else {
                old(self).history@
            },
    {
        if !self.history.dirty || (!force && pointer_down) {
            return FlushStep::Nothing;
        }
        if self.path.is_none() || !self.has_ir {
            self.history.dirty = false;
            return FlushStep::Nothing;
        }
        FlushStep::Write
    }

    /// The shader was to be printed to its file. Is that read again?
    pub fn flushed(&mut self, outcome: &Result<(), String>, printed: &str) -> (out: bool)
        ensures
            same_but_edit(*final(self), *old(self)),
            out == (*outcome is Ok),
            match *outcome {
                Ok(_) => final(self).history@ == old(self).history@.saved(printed@)
                    && final(self).status == old(self).status,
                Err(why) => final(self).history == old(self).history && is_toast(
                    final(self).status,
                    "save failed: "@ + why@,
                    40,
                ),
            },
    {
        match outcome {
            Ok(_) => {
                self.history.save(printed);
                true
            },
            Err(why) => {
                self.status = Some(
                    Toast { text: joined("save failed: ", why.as_str()), tenths: 40 },
                );
                false
            },
        }
    }

    // ---- what is selected ----

    /// Selects these nodes and no others.
    pub fn select(&mut self, keys: &Vec<u64>)
        ensures
            final(self).sel@ == keys@.to_set(),
            *final(self) == (ShaderGraphState { sel: final(self).sel, ..*old(self) }),
    {
        self.sel = set_of(keys);
    }

    /// Selects these nodes too.
    pub fn select_add(&mut self, keys: &Vec<u64>)
        ensures
            final(self).sel@ == old(self).sel@.union(keys@.to_set()),
            *final(self) == (ShaderGraphState { sel: final(self).sel, ..*old(self) }),
    {
        add_all(&mut self.sel, keys);
    }

    /// Selects a node, or no longer.
    pub fn select_toggle(&mut self, key: u64)
        ensures
            final(self).sel@ == if old(self).sel@.contains(key) {
                old(self).sel@.remove(key)
            } else {
                old(self).sel@.insert(key)
            },
            *final(self) == (ShaderGraphState { sel: final(self).sel, ..*old(self) }),
    {
        if !self.sel.remove(&key) {
            let _new: bool = self.sel.insert(key);
            assert(self.sel@ =~= old(self).sel@.insert(key));
        }
    }

    /// A click on a node.
    pub fn click_node(&mut self, key: u64, toggle: bool)
        ensures
            final(self).sel@ == if !toggle {
                set![key]
            } else if old(self).sel@.contains(key) {
                old(self).sel@.remove(key)
            } else {
                old(self).sel@.insert(key)
            },
            *final(self) == (ShaderGraphState { sel: final(self).sel, ..*old(self) }),
    {
        if toggle {
            self.select_toggle(key);
        } else {
            let _only: bool = self.select_only(key);
        }
    }

    /// Selects one node and no others.
    fn select_only(&mut self, key: u64) -> (out: bool)
        ensures
            out,
            final(self).sel@ == set![key],
            *final(self) == (ShaderGraphState { sel: final(self).sel, ..*old(self) }),
    {
        self.sel = BTreeSet::new();
        let new: bool = self.sel.insert(key);
        assert(self.sel@ =~= set![key]);
        new
    }

    /// A click on the empty canvas.
    pub fn click_canvas(&mut self, modified: bool)
        ensures
            final(self).sel@ == if modified {
                old(self).sel@
            } else {
                Set::empty()
            },
            *final(self) == (ShaderGraphState { sel: final(self).sel, ..*old(self) }),
    {
        if !modified {
            self.sel = BTreeSet::new();
        }
    }

    /// The selected nodes are about to be deleted: none is selected any more.
    pub fn delete_begins(&mut self)
        ensures
            final(self).sel@ == Set::<u64>::empty(),
            *final(self) == (ShaderGraphState { sel: final(self).sel, ..*old(self) }),
    {
        self.sel.clear();
    }

    /// All nodes are about to be laid out anew: where they stood is forgotten.
    pub fn arrange_begins(&mut self)
        ensures
            final(self).pos_cache.wf(),
            final(self).pos_cache@ == Map::<Seq<char>, Spot>::empty(),
            *final(self) == (ShaderGraphState { pos_cache: final(self).pos_cache, ..*old(self) }),
    {
        self.pos_cache.clear();
    }

    // ---- the box ----

    /// A drag starts on the empty canvas. Does it draw a box?
    pub fn box_begins(&mut self, on_canvas: bool) -> (out: bool)
        ensures
            out == (on_canvas && old(self).wire is None && old(self).drag is None),
            *final(self) == (ShaderGraphState { box_sel: old(self).box_sel || out, ..*old(self) }),
    {
        if on_canvas && self.wire.is_none() && self.drag.is_none() {
            self.box_sel = true;
            return true;
        }
        false
    }

    /// The drag on the canvas ends: the nodes that the box touches are selected.
    pub fn box_ends(&mut self, hit: &Vec<u64>, additive: bool)
        ensures
            final(self).sel@ == if !old(self).box_sel {
                old(self).sel@
            } else if additive {
                old(self).sel@.union(hit@.to_set())
            } else {
                hit@.to_set()
            },
            *final(self) == (ShaderGraphState {
                sel: final(self).sel,
                box_sel: false,
                ..*old(self)
            }),
    {
        if self.box_sel {
            self.box_sel = false;
            if additive {
                self.select_add(hit);
            } else {
                self.select(hit);
            }
        }
    }

    // ---- wires ----

    /// A drag starts on the output of a node.
    pub fn grab_output(&mut self, key: u64)
        ensures
            *final(self) == (ShaderGraphState {
                wire: Some(WireDrag::FromOut(key)),
                ..*old(self)
            }),
    {
        self.wire = Some(WireDrag::FromOut(key));
    }

    /// A drag starts on an input. A wire that is there comes off: its loose end
    /// is in hand, and the input at the place that is given back is freed.
    pub fn grab_input(&mut self, port: Port) -> (out: Option<u64>)
        ensures
            out == if port.wired is Some {
                Some(port.site)
            } else {
                None
            },
            *final(self) == (ShaderGraphState { wire: Some(grabbed(port)), ..*old(self) }),
    {
        match port.wired {
            Some(src) => {
                self.wire = Some(WireDrag::FromOut(src));
                Some(port.site)
            },
            None => {
                self.wire = Some(WireDrag::FromIn(port.site));
                None
            },
        }
    }

    /// The pointer is let go: the node and the input that are to be connected, if
    /// the wire ends at one.
    pub fn release_wire(&mut self, over_input: Option<u64>, over_output: Option<u64>) -> (out:
        Option<(u64, u64)>)
        ensures
            *final(self) == (ShaderGraphState { wire: None, ..*old(self) }),
            out == connection(old(self).wire, over_input, over_output),
    {
        let wire: Option<WireDrag> = self.wire;
        self.wire = None;
        match wire {
            Some(WireDrag::FromOut(src)) => match over_input {
                Some(site) => Some((src, site)),
                None => None,
            },
            Some(WireDrag::FromIn(site)) => match over_output {
                Some(src) => Some((src, site)),
                None => None,
            },
            None => None,
        }
    }

    /// Escape: a wire and a box that are being drawn are dropped.
    pub fn escape(&mut self)
        ensures
            *final(self) == (ShaderGraphState { wire: None, box_sel: false, ..*old(self) }),
    {
        self.wire = None;
        self.box_sel = false;
    }

    // ---- dragging nodes ----

    /// A drag starts on the head of a node: the whole selection goes along, or
    /// that node alone, where it is not selected. Only nodes that are there do.
    pub fn drag_begins(&mut self, key: u64)
        ensures
            final(self).sel@ == if old(self).sel@.contains(key) {
                old(self).sel@
            } else {
                set![key]
            },
            final(self).drag matches Some(d) && is_listing(
                d@,
                final(self).sel@.intersect(keys_in(old(self).view@).to_set()),
            ),
            *final(self) == (ShaderGraphState {
                sel: final(self).sel,
                drag: final(self).drag,
                ..*old(self)
            }),
    {
        if !self.sel.contains(&key) {
            let _only: bool = self.select_only(key);
        }
        let keys: Vec<u64> = keys_of_view(&self.view);
        let group: BTreeSet<u64> = kept(&self.sel, &keys);
        self.drag = Some(listed(&group));
    }

    /// Does a node move along with a drag on its own head?
    pub fn drag_moves(&self, key: u64) -> (out: bool)
        ensures
            out == (self.drag matches Some(d) && d@.contains(key)),
    {
        match &self.drag {
            Some(d) => is_among(d, key),
            None => false,
        }
    }

    /// The drag ends: the nodes whose places are written down.
    pub fn drag_ends(&mut self) -> (out: Option<Vec<u64>>)
        ensures
            out == old(self).drag,
            *final(self) == (ShaderGraphState { drag: None, ..*old(self) }),
    {
        let mut d: Option<Vec<u64>> = None;
        core::mem::swap(&mut d, &mut self.drag);
        d
    }

    // ---- keys ----

    /// What the keys do while the pointer is over the canvas.
    pub fn canvas_keys(&self, keys: CanvasKeys) -> (out: Vec<KeyAct>)
        ensures
            out@ == key_acts(keys, self.field_buf is None, !self.sel@.is_empty()),
    {
        let mut out: Vec<KeyAct> = Vec::new();
        let some: bool = !self.sel.is_empty();
        if keys.delete && self.field_buf.is_none() && some {
            out.push(KeyAct::Delete);
        }
        if keys.command && keys.d && some {
            out.push(KeyAct::Duplicate);
        }
        if keys.command && !keys.shift && keys.z {
            out.push(KeyAct::Undo);
        }
        if (keys.command && keys.shift && keys.z) || (keys.command && keys.y) {
            out.push(KeyAct::Redo);
        }
        assert(out@ =~= key_acts(keys, self.field_buf is None, !self.sel@.is_empty()));
        out
    }

    // ---- what a node offers ----

    /// The menu of a node.
    pub fn node_menu(&self, n: &GNode) -> (out: NodeMenu)
        ensures
            ({
                let multi = self.sel@.contains(n.key) && self.sel@.len() > 1;
                &&& out.rename == (is_renamable(n.key_kind) && !multi)
                &&& if multi {
                    is_listing(out.targets@, self.sel@)
                } else {
                    out.targets@ == seq![n.key]
                }
                &&& out.duplicate@ == "⧉ Duplicate"@ + nodes_word(multi, out.targets@.len())
                &&& opt_text(out.delete) == if n.key_kind == KeyKind::Out {
                    None
                } else {
                    Some("🗑 Delete"@ + nodes_word(multi, out.targets@.len()))
                }
                &&& opt_text(out.preview) == if !is_previewable(n.kind) {
                    None
                } else if self.pv_hidden@.contains(n.key) {
                    Some("👁 Show preview"@)
                } else {
                    Some("👁 Hide preview"@)
                }
            }),
    {
        let multi: bool = self.sel.contains(&n.key) && self.sel.len() > 1;
        let targets: Vec<u64> = if multi {
            listed(&self.sel)
        } else {
            let mut one: Vec<u64> = Vec::new();
            one.push(n.key);
            assert(one@ =~= seq![n.key]);
            one
        };
        let word: String = if multi {
            joined(
                joined(" ", decimal_text(targets.len() as u64).as_str()).as_str(),
                " nodes",
            )
        } else {
            String::new()
        };
        assert(word@ =~= nodes_word(multi, targets@.len()));
        let delete: Option<String> = if n.key_kind == KeyKind::Out {
            None
        } else {
            Some(joined("🗑 Delete", word.as_str()))
        };
        let preview: Option<String> = if !previewable(n) {
            None
        } else if self.pv_hidden.contains(&n.key) {
            Some(copy_of("👁 Show preview"))
        } else {
            Some(copy_of("👁 Hide preview"))
        };
        NodeMenu {
            rename: renamable(n) && !multi,
            targets,
            duplicate: joined("⧉ Duplicate", word.as_str()),
            delete,
            preview,
        }
    }

    /// Hides the picture of a node, or shows it again.
    pub fn toggle_preview(&mut self, key: u64)
        ensures
            final(self).pv_hidden@ == if old(self).pv_hidden@.contains(key) {
                old(self).pv_hidden@.remove(key)
            } else {
                old(self).pv_hidden@.insert(key)
            },
            *final(self) == (ShaderGraphState { pv_hidden: final(self).pv_hidden, ..*old(self) }),
    {
        if self.pv_hidden.contains(&key) {
            let _was: bool = self.pv_hidden.remove(&key);
        } else {
            let _new: bool = self.pv_hidden.insert(key);
        }
    }

    // ---- typing ----

    /// Begins to type into a field.
    pub fn edit_field(&mut self, field: u64, current: &str)
        ensures
            final(self).field_buf matches Some(f) && f.0 == field && f.1@ == current@,
            *final(self) == (ShaderGraphState { field_buf: final(self).field_buf, ..*old(self) }),
    {
        self.field_buf = Some((field, copy_of(current)));
    }

    /// Is this the field that is being typed into?
    pub fn is_editing(&self, field: u64) -> (out: bool)
        ensures
            out == (self.field_buf matches Some(f) && f.0 == field),
    {
        match &self.field_buf {
            Some(f) => f.0 == field,
            None => false,
        }
    }

    /// The field has lost the keyboard: what was typed into it, if that is to be
    /// taken. `current` is what stands there now, where typing the same again is
    /// no change.
    pub fn field_left(&mut self, current: Option<&str>, cancelled: bool) -> (out: Option<String>)
        ensures
            *final(self) == (ShaderGraphState { field_buf: None, ..*old(self) }),
            opt_text(out) == match old(self).field_buf {
                Some(f) => typed_in(
                    f.1@,
                    match current {
                        Some(c) => Some(c@),
                        None => None,
                    },
                    cancelled,
                ),
                None => None,
            },
    {
        let mut buf: Option<(u64, String)> = None;
        core::mem::swap(&mut buf, &mut self.field_buf);
        match buf {
            Some(f) => {
                let typed: Vec<char> = chars_of(f.1.as_str());
                let t: &[char] = trimmed(typed.as_slice());
                let text: String = text_of(t);
                let same: bool = match current {
                    Some(c) => same_text(text.as_str(), c),
                    None => false,
                };
                if !cancelled && t.len() > 0 && !same {
                    Some(text)
                } else {
                    None
                }
            },
            None => None,
        }
    }
}

/// What is taken of what was typed into a field.
pub open spec fn typed_in(
    buf: Seq<char>,
    current: Option<Seq<char>>,
    cancelled: bool,
) -> Option<Seq<char>> {
    let t = trim(buf);
    if !cancelled && t.len() > 0 && current != Some(t) {
        Some(t)
    } else {
        None
    }
}

/// The keys that are pressed over the canvas. `delete` is either of the two keys
/// that delete.
#[derive(Clone, Copy, Debug, PartialEq, Eq, Structural)]
pub struct CanvasKeys {
    pub delete: bool,
    pub command: bool,
    pub shift: bool,
    pub z: bool,
    pub y: bool,
    pub d: bool,
}

/// What a key does.
#[derive(Clone, Copy, Debug, PartialEq, Eq, Structural)]
pub enum KeyAct {
    /// Deletes what is selected.
    Delete,
    /// Makes a copy of what is selected.
    Duplicate,
    Undo,
    Redo,
}

/// Something, if it is so.
pub open spec fn act_if(yes: bool, act: KeyAct) -> Seq<KeyAct> {
    if yes {
        seq![act]
    } else {
        seq![]
    }
}

/// What the keys do. Nothing is deleted while something is being typed.
pub open spec fn key_acts(keys: CanvasKeys, not_typing: bool, some: bool) -> Seq<KeyAct> {
    act_if(keys.delete && not_typing && some, KeyAct::Delete) + act_if(
        keys.command && keys.d && some,
        KeyAct::Duplicate,
    ) + act_if(keys.command && !keys.shift && keys.z, KeyAct::Undo) + act_if(
        (keys.command && keys.shift && keys.z) || (keys.command && keys.y),
        KeyAct::Redo,
    )
}

/// The menu of a node.
pub struct NodeMenu {
    /// Can it be renamed?
    pub rename: bool,
    /// The nodes that the menu is about.
    pub targets: Vec<u64>,
    pub duplicate: String,
    /// `None` for the end of the graph, which stays.
    pub delete: Option<String>,
    /// `None` for a node that shows no picture.
    pub preview: Option<String>,
}

/// How the menu speaks of several nodes.
pub open spec fn nodes_word(multi: bool, n: nat) -> Seq<char> {
    if multi {
        " "@ + decimal(n) + " nodes"@
    } else {
        Seq::empty()
    }
}

/// Can a node be renamed?
pub open spec fn is_renamable(kind: KeyKind) -> bool {
    kind == KeyKind::Let || kind == KeyKind::Anon
}

/// Can a node be renamed? Values can.
pub fn renamable(n: &GNode) -> (out: bool)
    ensures
        out == is_renamable(n.key_kind),
{
    n.key_kind == KeyKind::Let || n.key_kind == KeyKind::Anon
}

/// An open file of the text editor.
pub struct IdeFile {
    pub path: String,
    /// Was it edited there, and not saved?
    pub dirty: bool,
}

/// Is `i` the first open file of this path that was not edited there?
pub open spec fn is_follower(open: Seq<IdeFile>, path: Seq<char>, i: int) -> bool {
    0 <= i < open.len() && open[i].path@ == path && !open[i].dirty && forall|j: int|
        0 <= j < i ==> !((#[trigger] open[j]).path@ == path && !open[j].dirty)
}

/// No open file may follow the graph.
pub open spec fn none_follows(open: Seq<IdeFile>, path: Seq<char>) -> bool {
    forall|j: int| 0 <= j < open.len() ==> !((#[trigger] open[j]).path@ == path && !open[j].dirty)
}

/// The open file whose text follows the graph: text that was edited there and not
/// saved is left alone.
pub fn ide_follows(open: &Vec<IdeFile>, path: &str) -> (out: Option<usize>)
    ensures
        match out {
            Some(i) => is_follower(open@, path@, i as int),
            None => none_follows(open@, path@),
        },
{
    let mut i: usize = 0;
    while i < open.len()
        invariant
            i <= open.len(),
            forall|j: int|
                0 <= j < i ==> !((#[trigger] open@[j]).path@ == path@ && !open@[j].dirty),
        decreases open.len() - i,
    {
        if same_text(open[i].path.as_str(), path) && !open[i].dirty {
            return Some(i);
        }
        i += 1;
    }
    None
}

/// Is a file read again? It is once it was changed elsewhere, unless what is held
/// was edited and not printed yet.
pub fn reads_again(was: Option<i128>, is: Option<i128>, dirty: bool) -> (out: bool)
    ensures
        out == (was != is && !dirty),
{
    let same: bool = match (was, is) {
        (Some(a), Some(b)) => a == b,
        (None, None) => true,
        _ => false,
    };
    !same && !dirty
}

/// A wire that is grabbed and let go over the input that it came off is connected
/// to it again. One that is let go over nothing connects nothing.
pub proof fn law_a_wire_can_be_put_back(port: Port, src: u64)
    requires
        port.wired == Some(src),
    ensures
        connection(Some(grabbed(port)), Some(port.site), None) == Some((src, port.site)),
        connection(Some(grabbed(port)), None, None) is None,
{
}

/// An edit that breaks a shader that was fine never reaches the file, where it is
/// strict; one of a shader that was broken already does.
pub proof fn law_a_strict_edit_never_breaks_a_shader(
    edit: Result<(), String>,
    check: CheckOutcome,
)
    requires
        check is Wrong,
    ensures
        !(commit_step(true, true, edit, true, check) is Flush),
        edit is Ok ==> commit_step(true, false, edit, true, check) is Flush,
{
}

/// It makes no difference from which end a wire is drawn: from the node to the input or from
/// the input to the node, the two are connected. What lies under the other end does not count.
pub proof fn law_a_wire_can_be_drawn_either_way(
    src: u64,
    site: u64,
    input: Option<u64>,
    output: Option<u64>,
)
    ensures
        connection(Some(WireDrag::FromOut(src)), Some(site), output) == Some((src, site)),
        connection(Some(WireDrag::FromIn(site)), input, Some(src)) == Some((src, site)),
        connection(Some(WireDrag::FromOut(src)), None, output) is None,
        connection(Some(WireDrag::FromIn(site)), input, None) is None,
        connection(None, input, output) is None,
{
}

/// Grabbing an input that a wire ends at takes that wire off by its loose end; grabbing a free
/// one begins a wire there.
pub proof fn law_a_grabbed_wire_comes_off(port: Port)
    ensures
        port.wired matches Some(src) ==> grabbed(port) == WireDrag::FromOut(src),
        port.wired is None ==> grabbed(port) == WireDrag::FromIn(port.site),
{
}

/// An edit reaches the file exactly where there is a shader, the edit was made, and it does
/// not break, where it must not, a shader that was fine. Without a shader nothing is done.
pub proof fn law_an_edit_is_printed_or_put_back(
    has_ir: bool,
    was_fine: bool,
    edit: Result<(), String>,
    strict: bool,
    check: CheckOutcome,
)
    ensures
        ({
            let step = commit_step(has_ir, was_fine, edit, strict, check);
            &&& step is Nothing <==> !has_ir
            &&& step is Flush <==> has_ir && edit is Ok && !(strict && was_fine && check is Wrong)
            &&& has_ir && edit is Err ==> step is Revert
            &&& has_ir && edit is Ok && !strict ==> step is Flush
            &&& has_ir && edit is Ok && check is Fine ==> step is Flush
        }),
{
}

/// A range holds its start and all that stands before its end, and not its end.
pub proof fn law_a_range_ends_before_its_end(s: Span, at: u32)
    ensures
        s.holds(s.start),
        s.start < s.end ==> !s.holds(s.end),
        s.start <= s.end ==> s.width() == s.end - s.start,
        s.start < s.end ==> (s.holds(at) <==> 0 <= at - s.start < s.width()),
        at < s.start ==> !s.holds(at),
{
}

/// A fault is pinned to one node at most, and a node with a smaller range round it takes it
/// over.
pub proof fn law_a_fault_is_pinned_to_the_closest(
    spans: Seq<Option<Span>>,
    at: u32,
    i: int,
    j: int,
    s: Span,
)
    requires
        is_pinned(spans, at, i),
    ensures
        is_pinned(spans, at, j) ==> i == j,
        !is_unpinned(spans, at),
        is_pinned(spans.push(None), at, i),
        !s.holds(at) ==> is_pinned(spans.push(Some(s)), at, i),
        s.holds(at) && s.width() < spans[i]->Some_0.width() ==> is_pinned(
            spans.push(Some(s)),
            at,
            spans.len() as int,
        ),
        s.holds(at) && s.width() >= spans[i]->Some_0.width() ==> is_pinned(
            spans.push(Some(s)),
            at,
            i,
        ),
{
}

/// A key does its own work and no other's: Delete deletes where something is selected and
/// nothing is being typed, and Ctrl with D, Z or Y copies, undoes and redoes; with Shift, Z
/// redoes. Each is done once at most.
pub proof fn law_a_key_does_its_own_work(keys: CanvasKeys, not_typing: bool, some: bool)
    ensures
        ({
            let acts = key_acts(keys, not_typing, some);
            &&& acts.contains(KeyAct::Delete) <==> keys.delete && not_typing && some
            &&& acts.contains(KeyAct::Duplicate) <==> keys.command && keys.d && some
            &&& acts.contains(KeyAct::Undo) <==> keys.command && keys.z && !keys.shift
            &&& acts.contains(KeyAct::Redo) <==> keys.command && (keys.y || (keys.z && keys.shift))
            &&& acts.no_duplicates()
        }),
{
    let acts = key_acts(keys, not_typing, some);
    let a = act_if(keys.delete && not_typing && some, KeyAct::Delete);
    let b = act_if(keys.command && keys.d && some, KeyAct::Duplicate);
    let c = act_if(keys.command && !keys.shift && keys.z, KeyAct::Undo);
    let d = act_if(
        (keys.command && keys.shift && keys.z) || (keys.command && keys.y),
        KeyAct::Redo,
    );
    assert(acts == a + b + c + d);
    assert(a.len() > 0 ==> acts[0] == KeyAct::Delete);
    assert(b.len() > 0 ==> acts[a.len() as int] == KeyAct::Duplicate);
    assert(c.len() > 0 ==> acts[(a.len() + b.len()) as int] == KeyAct::Undo);
    assert(d.len() > 0 ==> acts[(a.len() + b.len() + c.len()) as int] == KeyAct::Redo);
}

/// What is typed is taken trimmed, unless it is blank, cancelled, or what stands there already.
pub proof fn law_what_is_typed_is_taken(
    buf: Seq<char>,
    current: Option<Seq<char>>,
    cancelled: bool,
)
    ensures
        typed_in(buf, current, true) is None,
        typed_in(buf, Some(trim(buf)), cancelled) is None,
        trim(buf).len() == 0 ==> typed_in(buf, current, cancelled) is None,
        typed_in(buf, current, cancelled) is Some ==> typed_in(buf, current, cancelled) == Some(
            trim(buf),
        ),
        trim(buf).len() > 0 ==> typed_in(buf, None, false) == Some(trim(buf)),
{
}

/// Values can be renamed, and nothing else; several nodes are spoken of by their number.
pub proof fn law_only_values_are_renamed(kind: KeyKind, n: nat)
    ensures
        is_renamable(kind) <==> kind is Let || kind is Anon,
        nodes_word(false, n).len() == 0,
        nodes_word(true, n) == " "@ + decimal(n) + " nodes"@,
{
}

// ---- the head of the tab ---------------------------------------------------

/// What the head of the tab says.
pub enum HeaderLine {
    /// What was done, or why not.
    Status(String),
    /// What is wrong.
    Wrong(String),
    /// Something to know.
    Quiet(String),
    Nothing,
}

/// What the head of the tab knows of.
pub struct HeaderState {
    /// Is there a shader? Text that does not parse gives none.
    pub parsed: bool,
    pub status: Option<String>,
    pub err: Option<String>,
    /// Why the compiler of looks refused it, and that of shapes.
    pub flsl_error: Option<String>,
    pub sdf_error: Option<String>,
    pub preview_error: Option<String>,
    /// Does any material of the scene use it?
    pub used: bool,
}

/// Is this what the head says? The most urgent comes first, and without a shader
/// nothing but what was done.
pub open spec fn is_header(h: HeaderState, line: HeaderLine) -> bool {
    if h.status is Some {
        line matches HeaderLine::Status(s) && s@ == h.status->Some_0@
    } else if !h.parsed {
        line is Nothing
    } else if h.err is Some {
        line matches HeaderLine::Wrong(s) && s@ == "⚠ "@ + h.err->Some_0@
    } else if h.flsl_error is Some {
        line matches HeaderLine::Wrong(s) && s@ == "⚠ "@ + h.flsl_error->Some_0@
    } else if h.sdf_error is Some {
        line matches HeaderLine::Wrong(s) && s@ == "⚠ "@ + h.sdf_error->Some_0@
    } else if h.preview_error is Some {
        line matches HeaderLine::Quiet(s) && s@ == "previews paused: "@ + h.preview_error->Some_0@
    } else if !h.used {
        line matches HeaderLine::Quiet(s) && s@
            == "not in the scene yet — assign it on a Material to watch edits live"@
    } else {
        line is Nothing
    }
}

/// What the head of the tab says.
pub fn header_line(h: &HeaderState) -> (out: HeaderLine)
    ensures
        is_header(*h, out),
{
    match &h.status {
        Some(s) => {
            return HeaderLine::Status(copy_of(s.as_str()));
        },
        None => {},
    }
    if !h.parsed {
        return HeaderLine::Nothing;
    }
    match &h.err {
        Some(s) => {
            return HeaderLine::Wrong(joined("⚠ ", s.as_str()));
        },
        None => {},
    }
    match &h.flsl_error {
        Some(s) => {
            return HeaderLine::Wrong(joined("⚠ ", s.as_str()));
        },
        None => {},
    }
    match &h.sdf_error {
        Some(s) => {
            return HeaderLine::Wrong(joined("⚠ ", s.as_str()));
        },
        None => {},
    }
    match &h.preview_error {
        Some(s) => {
            return HeaderLine::Quiet(joined("previews paused: ", s.as_str()));
        },
        None => {},
    }
    if !h.used {
        return HeaderLine::Quiet(
            copy_of("not in the scene yet — assign it on a Material to watch edits live"),
        );
    }
    HeaderLine::Nothing
}

/// What the picker of the tab says: the name of the file that is open.
pub fn picked_label(path: &Option<String>) -> (out: String)
    ensures
        out@ == match *path {
            Some(p) => match name_in(p@) {
                Some(name) => name,
                None => "(pick a shader)"@,
            },
            None => "(pick a shader)"@,
        },
{
    let name: Option<String> = match path {
        Some(p) => file_name(p.as_str()),
        None => None,
    };
    match name {
        Some(n) => n,
        None => copy_of("(pick a shader)"),
    }
}

/// How a look is laid over what is behind it.
#[derive(Clone, Copy, Debug, PartialEq, Eq, Structural)]
pub enum Blend {
    Opaque,
    Alpha,
    Additive,
}

/// What that is called.
pub fn blend_label(blend: Blend) -> (out: &'static str)
    ensures
        out@ == match blend {
            Blend::Opaque => "opaque"@,
            Blend::Alpha => "alpha"@,
            Blend::Additive => "additive"@,
        },
{
    match blend {
        Blend::Opaque => "opaque",
        Blend::Alpha => "alpha",
        Blend::Additive => "additive",
    }
}

/// What the head says of the stage of a shader.
#[derive(Clone, Copy, Debug, PartialEq, Eq, Structural)]
pub enum StageRow {
    /// The shader is geometry, which nothing is laid over.
    Geometry,
    /// A look, with the list of how it is laid over what is behind it.
    Look { blend: Blend },
}

/// What the head of the tab offers for a shader.
#[derive(Clone, Copy, Debug, PartialEq, Eq, Structural)]
pub struct HeaderTools {
    /// The stage whose nodes can be added.
    pub palette: Stage,
    pub row: StageRow,
    /// Can an edit be undone, and one that was undone be done again?
    pub undo: bool,
    pub redo: bool,
    /// Are pictures shown on the nodes?
    pub previews: bool,
}

/// What is pressed in the head of the tab.
#[derive(Clone, Copy, Debug, PartialEq, Eq, Structural)]
pub enum HeaderPress {
    Undo,
    Redo,
    Frame,
    Arrange,
    Previews,
    AsText,
    Pick(Blend),
}

/// What comes of it.
#[derive(Clone, Copy, Debug, PartialEq, Eq, Structural)]
pub enum HeaderAct {
    Nothing,
    Undo,
    Redo,
    /// The whole graph is brought into view.
    Frame,
    /// All nodes are laid out anew, and then brought into view.
    Arrange,
    /// Pictures are shown, or no longer.
    Previews(bool),
    /// The file is opened as text.
    AsText,
    /// An edit that need not be strict: the look is laid so over what is behind it.
    Lay(Blend),
}

/// What comes of a press. A button that is greyed does nothing, and neither does the
/// entry of the list that is set.
pub open spec fn header_act(tools: HeaderTools, press: HeaderPress) -> HeaderAct {
    match press {
        HeaderPress::Undo => if tools.undo {
            HeaderAct::Undo
        } else {
            HeaderAct::Nothing
        },
        HeaderPress::Redo => if tools.redo {
            HeaderAct::Redo
        } else {
            HeaderAct::Nothing
        },
        HeaderPress::Frame => HeaderAct::Frame,
        HeaderPress::Arrange => HeaderAct::Arrange,
        HeaderPress::Previews => HeaderAct::Previews(!tools.previews),
        HeaderPress::AsText => HeaderAct::AsText,
        HeaderPress::Pick(picked) => match tools.row {
            StageRow::Look { blend } => if picked == blend {
                HeaderAct::Nothing
            } else {
                HeaderAct::Lay(picked)
            },
            StageRow::Geometry => HeaderAct::Nothing,
        },
    }
}

impl HeaderTools {
    /// What comes of a press.
    pub fn press(&self, press: HeaderPress) -> (out: HeaderAct)
        ensures
            out == header_act(*self, press),
    {
        match press {
            HeaderPress::Undo => {
                if self.undo {
                    HeaderAct::Undo
                } else {
                    HeaderAct::Nothing
                }
            },
            HeaderPress::Redo => {
                if self.redo {
                    HeaderAct::Redo
                } else {
                    HeaderAct::Nothing
                }
            },
            HeaderPress::Frame => HeaderAct::Frame,
            HeaderPress::Arrange => HeaderAct::Arrange,
            HeaderPress::Previews => HeaderAct::Previews(!self.previews),
            HeaderPress::AsText => HeaderAct::AsText,
            HeaderPress::Pick(picked) => match self.row {
                StageRow::Look { blend } => {
                    if picked == blend {
                        HeaderAct::Nothing
                    } else {
                        HeaderAct::Lay(picked)
                    }
                },
                StageRow::Geometry => HeaderAct::Nothing,
            },
        }
    }
}

impl ShaderGraphState {
    /// What the head of the tab offers: nothing without a shader. `stage` is what the
    /// shader says of itself, and one that says nothing is a look.
    pub fn header_tools(&self, stage: Option<Stage>, blend: Blend, previews: bool) -> (out: Option<
        HeaderTools,
    >)
        ensures
            out == if self.has_ir {
                Some(
                    HeaderTools {
                        palette: match stage {
                            Some(s) => s,
                            None => Stage::Fragment,
                        },
                        row: if stage == Some(Stage::Sdf) {
                            StageRow::Geometry
                        } else {
                            StageRow::Look { blend }
                        },
                        undo: self.history.undo@.len() > 0,
                        redo: self.history.redo@.len() > 0,
                        previews,
                    },
                )
            } else {
                None
            },
    {
        if !self.has_ir {
            return None;
        }
        let palette: Stage = match stage {
            Some(s) => s,
            None => Stage::Fragment,
        };
        let row: StageRow = match palette {
            Stage::Sdf => StageRow::Geometry,
            _ => StageRow::Look { blend },
        };
        Some(
            HeaderTools {
                palette,
                row,
                undo: self.history.undo.len() > 0,
                redo: self.history.redo.len() > 0,
                previews,
            },
        )
    }
}

/// What was done is said before all else, then what is wrong, then what is good to know. What
/// is wrong with the text comes before what its compilers refuse, and without a shader nothing
/// is wrong with it.
pub proof fn law_the_most_urgent_is_said(h: HeaderState, line: HeaderLine)
    requires
        is_header(h, line),
    ensures
        line is Status <==> h.status is Some,
        line is Wrong <==> h.status is None && h.parsed && (h.err is Some || h.flsl_error is Some
            || h.sdf_error is Some),
        line is Quiet <==> h.status is None && h.parsed && h.err is None && h.flsl_error is None
            && h.sdf_error is None && (h.preview_error is Some || !h.used),
        line matches HeaderLine::Status(s) ==> s@ == h.status->Some_0@,
        line matches HeaderLine::Wrong(s) ==> (h.err is Some ==> s@ == "⚠ "@ + h.err->Some_0@) && (
        h.err is None && h.flsl_error is Some ==> s@ == "⚠ "@ + h.flsl_error->Some_0@) && (h.err is None
            && h.flsl_error is None ==> s@ == "⚠ "@ + h.sdf_error->Some_0@),
        line matches HeaderLine::Quiet(s) ==> (h.preview_error is Some ==> s@
            == "previews paused: "@ + h.preview_error->Some_0@),
{
}

/// A button does its own work where it can, and nothing where it is greyed. Pictures are
/// switched to the other state, so twice is back; a look is laid anew only by picking another
/// way, and geometry never is.
pub proof fn law_a_button_does_its_own_work(tools: HeaderTools, press: HeaderPress)
    ensures
        ({
            let act = header_act(tools, press);
            &&& act is Undo <==> press is Undo && tools.undo
            &&& act is Redo <==> press is Redo && tools.redo
            &&& act is Frame <==> press is Frame
            &&& act is Arrange <==> press is Arrange
            &&& act is AsText <==> press is AsText
            &&& act is Previews <==> press is Previews
            &&& act matches HeaderAct::Previews(on) ==> on != tools.previews
            &&& act is Lay <==> (press matches HeaderPress::Pick(picked) && (tools.row matches
                StageRow::Look { blend } && blend != picked))
            &&& act matches HeaderAct::Lay(blend) ==> press == HeaderPress::Pick(blend)
        }),
{
}

// ---- what is drawn of a node -----------------------------------------------

/// The line round a node.
#[derive(Clone, Copy, Debug, PartialEq, Eq, Structural)]
pub enum NodeOutline {
    Wrong,
    Selected,
    /// In the colour of what it does.
    Plain,
}

/// The line round a node.
pub fn node_outline(errored: bool, selected: bool) -> (out: NodeOutline)
    ensures
        out == if errored {
            NodeOutline::Wrong
        } else if selected {
            NodeOutline::Selected
        } else {
            NodeOutline::Plain
        },
{
    if errored {
        NodeOutline::Wrong
    } else if selected {
        NodeOutline::Selected
    } else {
        NodeOutline::Plain
    }
}

/// Does the head of a node say what its operation is, beside its name?
pub fn shows_operation(n: &GNode) -> (out: bool)
    ensures
        out == (n.name is Some && n.name->Some_0@ != n.op_label@),
{
    match &n.name {
        Some(name) => !same_text(name.as_str(), n.op_label.as_str()),
        None => false,
    }
}

/// A value that stands in a node.
#[derive(Clone, Copy, Debug, PartialEq, Eq, Structural)]
pub enum InlineKind {
    Number,
    Vector { lanes: u8 },
    Colour,
    /// Anything else.
    Other,
}

/// Is this the kind that a constant has?
pub fn is_chosen(current: Option<InlineKind>, offered: InlineKind) -> (out: bool)
    ensures
        out == (current == Some(offered) && offered != InlineKind::Other),
{
    match (current, offered) {
        (Some(InlineKind::Number), InlineKind::Number) => true,
        (Some(InlineKind::Colour), InlineKind::Colour) => true,
        (Some(InlineKind::Vector { lanes: a }), InlineKind::Vector { lanes: b }) => a == b,
        _ => false,
    }
}

/// The kinds that a constant can have, with what the buttons say.
pub fn constant_kinds() -> (out: Vec<(&'static str, InlineKind)>)
    ensures
        out@.len() == 5,
        out@[0].0@ == "#"@ && out@[0].1 == InlineKind::Number,
        out@[1].0@ == "v2"@ && out@[1].1 == (InlineKind::Vector { lanes: 2 }),
        out@[2].0@ == "v3"@ && out@[2].1 == (InlineKind::Vector { lanes: 3 }),
        out@[3].0@ == "v4"@ && out@[3].1 == (InlineKind::Vector { lanes: 4 }),
        out@[4].0@ == "🎨"@ && out@[4].1 == InlineKind::Colour,
{
    let mut out: Vec<(&'static str, InlineKind)> = Vec::new();
    out.push(("#", InlineKind::Number));
    out.push(("v2", InlineKind::Vector { lanes: 2 }));
    out.push(("v3", InlineKind::Vector { lanes: 3 }));
    out.push(("v4", InlineKind::Vector { lanes: 4 }));
    out.push(("🎨", InlineKind::Colour));
    out
}

/// The bits of the number one.
pub const ONE: u32 = 0x3f80_0000;

/// A knob: its type, its value from the start (as bits) and the range of its
/// slider (as bits).
#[derive(Clone, Copy, Debug, PartialEq, Eq)]
pub struct Knob {
    pub ty: ValueType,
    pub is_color: bool,
    pub default: [u32; 4],
    pub range: Option<(u32, u32)>,
}

/// A type that a knob can have.
#[derive(Clone, Copy, Debug, PartialEq, Eq, Structural)]
pub struct KnobType {
    pub ty: ValueType,
    pub is_color: bool,
}

/// What a type of a knob is called.
pub open spec fn knob_word(t: KnobType) -> Seq<char> {
    if t.is_color {
        "color"@
    } else {
        match t.ty {
            ValueType::Float => "float"@,
            ValueType::Vec2 => "vec2"@,
            ValueType::Vec3 => "vec3"@,
            ValueType::Vec4 => "vec4"@,
        }
    }
}

/// What a type of a knob is called.
pub fn knob_label(t: KnobType) -> (out: &'static str)
    ensures
        out@ == knob_word(t),
{
    if t.is_color {
        return "color";
    }
    match t.ty {
        ValueType::Float => "float",
        ValueType::Vec2 => "vec2",
        ValueType::Vec3 => "vec3",
        ValueType::Vec4 => "vec4",
    }
}

impl Knob {
    /// Gives the knob another type. A colour starts white, and has no slider.
    pub fn set_type(&mut self, t: KnobType)
        ensures
            final(self).ty == t.ty,
            final(self).is_color == t.is_color,
            t.is_color ==> final(self).default@ == seq![ONE, ONE, ONE, ONE] && final(self).range is None,
            !t.is_color ==> final(self).default == old(self).default && final(self).range == old(self).range,
    {
        self.ty = t.ty;
        self.is_color = t.is_color;
        if t.is_color {
            self.default = [ONE, ONE, ONE, ONE];
            self.range = None;
            assert(self.default@ =~= seq![ONE, ONE, ONE, ONE]);
        }
    }

    /// Does it show the range of its slider?
    pub fn shows_range(&self) -> (out: bool)
        ensures
            out == (self.ty == ValueType::Float && !self.is_color),
    {
        self.ty == ValueType::Float && !self.is_color
    }
}

/// What stands where the picture of a node is.
#[derive(Clone, Copy, Debug, PartialEq, Eq, Structural)]
pub enum Thumbnail {
    /// This tile of the sheet of pictures.
    Tile(u32),
    /// It is not there yet: a dash, so that nothing jumps.
    Dash,
}

/// What stands where the picture of a node is.
pub fn thumbnail(sheet: bool, tile: Option<u32>) -> (out: Thumbnail)
    ensures
        out == match tile {
            Some(t) => if sheet {
                Thumbnail::Tile(t)
            } else {
                Thumbnail::Dash
            },
            None => Thumbnail::Dash,
        },
{
    match tile {
        Some(t) => if sheet {
            Thumbnail::Tile(t)
        } else {
            Thumbnail::Dash
        },
        None => Thumbnail::Dash,
    }
}

/// No two types of a knob are called the same.
pub proof fn law_types_have_their_own_words(a: KnobType, b: KnobType)
    requires
        knob_word(a) == knob_word(b),
    ensures
        a.is_color == b.is_color,
        !a.is_color ==> a.ty == b.ty,
{
    reveal_strlit("color");
    reveal_strlit("float");
    reveal_strlit("vec2");
    reveal_strlit("vec3");
    reveal_strlit("vec4");
    assert("color"@[0] == 'c' && "float"@[0] == 'f');
    assert("vec2"@[0] == 'v' && "vec3"@[0] == 'v' && "vec4"@[0] == 'v');
    assert("vec2"@[3] == '2' && "vec3"@[3] == '3' && "vec4"@[3] == '4');
}

/// A file is read again exactly where it has changed on disk and not in the editor: what is
/// being edited is never lost.
pub proof fn law_what_is_being_edited_is_not_read_over(was: Option<i128>, is: Option<i128>, dirty: bool, out: bool)
    requires
        call_ensures(reads_again, (was, is, dirty), out),
    ensures
        dirty ==> !out,
        was == is ==> !out,
        !dirty && was != is ==> out,
{
}

/// A wrong node is marked as wrong, selected or not.
pub proof fn law_what_is_wrong_is_marked_first(errored: bool, selected: bool, out: NodeOutline)
    requires
        call_ensures(node_outline, (errored, selected), out),
    ensures
        out is Wrong <==> errored,
        out is Selected <==> selected && !errored,
        out is Plain <==> !selected && !errored,
{
}

/// At most one kind of constant is shown as chosen, and what is none of them never is.
pub proof fn law_one_kind_is_chosen(current: Option<InlineKind>, a: InlineKind, b: InlineKind, x: bool, y: bool)
    requires
        call_ensures(is_chosen, (current, a), x),
        call_ensures(is_chosen, (current, b), y),
    ensures
        x && y ==> a == b,
        x ==> current == Some(a) && !(a is Other),
        current == Some(a) && !(a is Other) ==> x,
{
}

/// A tile has a picture only where there is a sheet to take it from.
pub proof fn law_a_tile_is_taken_from_a_sheet(sheet: bool, tile: Option<u32>, out: Thumbnail)
    requires
        call_ensures(thumbnail, (sheet, tile), out),
    ensures
        out is Dash <==> !sheet || tile is None,
        out matches Thumbnail::Tile(t) ==> tile == Some(t),
{
}

/// A click on a node selects it alone; with the key held it goes in or out, and a second such
/// click undoes the first. No other node is touched then.
pub proof fn law_a_second_click_undoes_the_first(
    plain: &mut ShaderGraphState,
    once: &mut ShaderGraphState,
    twice: &mut ShaderGraphState,
    key: u64,
    other: u64,
)
    requires
        call_ensures(ShaderGraphState::click_node, (plain, key, false), ()),
        call_ensures(ShaderGraphState::click_node, (once, key, true), ()),
        call_ensures(ShaderGraphState::click_node, (twice, key, true), ()),
        *old(twice) == *final(once),
    ensures
        final(plain).sel@.contains(other) <==> other == key,
        final(once).sel@.contains(key) <==> !old(once).sel@.contains(key),
        other != key ==> (final(once).sel@.contains(other) <==> old(once).sel@.contains(other)),
        final(twice).sel@ == old(once).sel@,
        final(once).history == old(once).history && final(once).view == old(once).view
            && final(once).wire == old(once).wire && final(once).drag == old(once).drag,
{
    assert(final(twice).sel@ =~= old(once).sel@);
}

/// What is toggled is in exactly where it was out, and a click with the key held toggles.
pub proof fn law_a_click_with_the_key_toggles(
    a: &mut ShaderGraphState,
    b: &mut ShaderGraphState,
    key: u64,
)
    requires
        call_ensures(ShaderGraphState::select_toggle, (a, key), ()),
        call_ensures(ShaderGraphState::click_node, (b, key, true), ()),
        *old(a) == *old(b),
    ensures
        final(a).sel@ == final(b).sel@,
        final(a).sel@.contains(key) <==> !old(a).sel@.contains(key),
{
}

/// To select nodes drops the others, to add some drops none; nothing but the selection changes.
pub proof fn law_adding_drops_nothing(
    a: &mut ShaderGraphState,
    b: &mut ShaderGraphState,
    keys: &Vec<u64>,
    key: u64,
)
    requires
        call_ensures(ShaderGraphState::select, (a, keys), ()),
        call_ensures(ShaderGraphState::select_add, (b, keys), ()),
    ensures
        final(a).sel@.contains(key) <==> keys@.contains(key),
        final(b).sel@.contains(key) <==> keys@.contains(key) || old(b).sel@.contains(key),
        final(a).history == old(a).history && final(a).view == old(a).view,
        final(b).history == old(b).history && final(b).view == old(b).view,
{
}

/// A click on the canvas clears the selection unless a key is held, and deleting clears it too.
pub proof fn law_the_canvas_clears_the_selection(
    a: &mut ShaderGraphState,
    modified: bool,
    b: &mut ShaderGraphState,
    key: u64,
)
    requires
        call_ensures(ShaderGraphState::click_canvas, (a, modified), ()),
        call_ensures(ShaderGraphState::delete_begins, (b,), ()),
    ensures
        final(a).sel@.contains(key) <==> modified && old(a).sel@.contains(key),
        !final(b).sel@.contains(key),
        final(b).history == old(b).history && final(b).view == old(b).view,
{
}

/// To arrange the nodes forgets where they stood, and nothing else.
pub proof fn law_arranging_forgets_where_nodes_stood(s: &mut ShaderGraphState, name: Seq<char>)
    requires
        call_ensures(ShaderGraphState::arrange_begins, (s,), ()),
    ensures
        !final(s).pos_cache@.contains_key(name),
        final(s).sel == old(s).sel && final(s).view == old(s).view && final(s).history
            == old(s).history && final(s).pv_hidden == old(s).pv_hidden,
{
}

/// A box is begun on the canvas alone, and while nothing else is dragged. Once it ends none is
/// being drawn, and what it caught is selected, beside what was where a key is held.
pub proof fn law_a_box_selects_what_it_caught(
    a: &mut ShaderGraphState,
    on_canvas: bool,
    begun: bool,
    b: &mut ShaderGraphState,
    hit: &Vec<u64>,
    additive: bool,
    key: u64,
)
    requires
        call_ensures(ShaderGraphState::box_begins, (a, on_canvas), begun),
        call_ensures(ShaderGraphState::box_ends, (b, hit, additive), ()),
        *old(b) == *final(a),
    ensures
        begun ==> on_canvas && old(a).wire is None && old(a).drag is None,
        on_canvas && old(a).wire is None && old(a).drag is None ==> begun,
        begun ==> final(a).box_sel,
        !begun ==> final(a).box_sel == old(a).box_sel,
        final(a).sel == old(a).sel,
        !final(b).box_sel,
        begun ==> (final(b).sel@.contains(key) <==> hit@.contains(key) || (additive && old(
            a,
        ).sel@.contains(key))),
        !begun && !old(a).box_sel ==> final(b).sel@ == old(a).sel@,
{
}

/// Escape lets go of a wire and of a box, keeps what is selected, and leaves nothing for a
/// second one to do.
pub proof fn law_escape_lets_go(a: &mut ShaderGraphState, key: u64, b: &mut ShaderGraphState, c: &mut ShaderGraphState)
    requires
        call_ensures(ShaderGraphState::grab_output, (a, key), ()),
        call_ensures(ShaderGraphState::escape, (b,), ()),
        call_ensures(ShaderGraphState::escape, (c,), ()),
        *old(b) == *final(a),
        *old(c) == *final(b),
    ensures
        final(a).wire == Some(WireDrag::FromOut(key)),
        final(a).sel == old(a).sel && final(a).drag == old(a).drag,
        final(b).wire is None && !final(b).box_sel,
        final(b).sel == old(a).sel && final(b).drag == old(a).drag && final(b).history == old(
            a,
        ).history,
        *final(c) == *final(b),
{
}

/// A drag moves the nodes that it hands back when it ends, and moves none afterwards.
pub proof fn law_a_drag_hands_back_what_it_moved(
    s: &mut ShaderGraphState,
    key: u64,
    before: bool,
    out: Option<Vec<u64>>,
    after: bool,
)
    requires
        call_ensures(ShaderGraphState::drag_moves, (old(s), key), before),
        call_ensures(ShaderGraphState::drag_ends, (s,), out),
        call_ensures(ShaderGraphState::drag_moves, (final(s), key), after),
    ensures
        before <==> out is Some && out->Some_0@.contains(key),
        !after,
        final(s).sel == old(s).sel && final(s).wire == old(s).wire && final(s).view == old(s).view,
{
}

/// To hide a picture twice shows it again; no other picture is touched.
pub proof fn law_a_picture_is_hidden_and_shown(
    once: &mut ShaderGraphState,
    twice: &mut ShaderGraphState,
    key: u64,
    other: u64,
)
    requires
        call_ensures(ShaderGraphState::toggle_preview, (once, key), ()),
        call_ensures(ShaderGraphState::toggle_preview, (twice, key), ()),
        *old(twice) == *final(once),
    ensures
        final(once).pv_hidden@.contains(key) <==> !old(once).pv_hidden@.contains(key),
        other != key ==> (final(once).pv_hidden@.contains(other) <==> old(
            once,
        ).pv_hidden@.contains(other)),
        final(twice).pv_hidden@ == old(once).pv_hidden@,
        final(once).sel == old(once).sel && final(once).view == old(once).view,
{
    assert(final(twice).pv_hidden@ =~= old(once).pv_hidden@);
}

/// One field at a time is typed into: the one that was begun last, with what it held.
pub proof fn law_one_field_is_typed_into(
    s: &mut ShaderGraphState,
    field: u64,
    current: &str,
    other: u64,
    out: bool,
)
    requires
        call_ensures(ShaderGraphState::edit_field, (s, field, current), ()),
        call_ensures(ShaderGraphState::is_editing, (final(s), other), out),
    ensures
        out <==> other == field,
        final(s).field_buf is Some && final(s).field_buf->Some_0.1@ == current@,
        final(s).sel == old(s).sel && final(s).history == old(s).history,
{
}

/// Nothing is written while the pointer is down, unless it must be, nor where nothing was
/// edited. Edits that no file can take are dropped and not kept for later.
pub proof fn law_edits_wait_for_the_pointer(
    s: &mut ShaderGraphState,
    force: bool,
    pointer_down: bool,
    out: FlushStep,
)
    requires
        call_ensures(ShaderGraphState::flush, (s, force, pointer_down), out),
    ensures
        out is Write ==> old(s).history.dirty && old(s).path is Some && old(s).has_ir,
        pointer_down && !force ==> !(out is Write) && final(s).history@ == old(s).history@,
        old(s).history.dirty && old(s).path is Some && old(s).has_ir && (force || !pointer_down)
            ==> out is Write,
        final(s).history@.src == old(s).history@.src && final(s).history@.undo == old(
            s,
        ).history@.undo && final(s).history@.redo == old(s).history@.redo,
        final(s).history.dirty ==> old(s).history.dirty,
        force && !(old(s).path is Some && old(s).has_ir) ==> !final(s).history.dirty,
        final(s).sel == old(s).sel && final(s).view == old(s).view,
{
}

/// An open file follows the graph only where it is that file and was not edited; the first such
/// one does.
pub proof fn law_an_edited_file_does_not_follow(
    open: &Vec<IdeFile>,
    path: &str,
    out: Option<usize>,
    j: int,
)
    requires
        call_ensures(ide_follows, (open, path), out),
        0 <= j < open@.len(),
    ensures
        out is Some ==> (out->Some_0 as int) < open@.len() && open@[out->Some_0 as int].path@ == path@
            && !open@[out->Some_0 as int].dirty,
        open@[j].path@ == path@ && !open@[j].dirty ==> out is Some && out->Some_0 <= j,
{
    match out {
        Some(i) => assert(is_follower(open@, path@, i as int)),
        None => assert(none_follows(open@, path@)),
    }
}

/// No two ways of blending have one name.
pub proof fn law_ways_of_blending_have_names(a: Blend, b: Blend, x: &'static str, y: &'static str)
    requires
        call_ensures(blend_label, (a,), x),
        call_ensures(blend_label, (b,), y),
        x@ == y@,
    ensures
        a == b,
{
    reveal_strlit("opaque");
    reveal_strlit("alpha");
    reveal_strlit("additive");
    assert("opaque"@[0] == 'o' && "alpha"@[1] == 'l' && "additive"@[1] == 'd' && "alpha"@[0] == 'a'
        && "additive"@[0] == 'a');
}

/// There are tools only where there is a shader. To undo and to redo are offered exactly where
/// there is something to, and a shape has no way of blending.
pub proof fn law_tools_are_offered_where_they_work(
    s: &ShaderGraphState,
    stage: Option<Stage>,
    blend: Blend,
    previews: bool,
    out: Option<HeaderTools>,
)
    requires
        call_ensures(ShaderGraphState::header_tools, (s, stage, blend, previews), out),
    ensures
        out is Some <==> s.has_ir,
        out matches Some(t) ==> (t.undo <==> s.history.undo@.len() > 0),
        out matches Some(t) ==> (t.redo <==> s.history.redo@.len() > 0),
        out matches Some(t) ==> t.previews == previews,
        out matches Some(t) ==> (t.row is Geometry <==> stage == Some(Stage::Sdf)),
        out matches Some(t) ==> (t.row matches StageRow::Look { blend: b } ==> b == blend),
        out matches Some(t) ==> (stage matches Some(g) ==> t.palette == g),
        out matches Some(t) ==> (stage is None ==> t.palette == Stage::Fragment),
{
}

/// The name of an operation is shown under a node that has another name, and under no other.
pub proof fn law_an_operation_is_named_once(n: &GNode, out: bool)
    requires
        call_ensures(shows_operation, (n,), out),
    ensures
        n.name is None ==> !out,
        n.name matches Some(name) ==> (out <==> name@ != n.op_label@),
{
}

/// No kind of constant is offered twice, and every one that is offered can be chosen.
pub proof fn law_no_kind_is_offered_twice(out: Vec<(&'static str, InlineKind)>, i: int, j: int, chosen: bool)
    requires
        call_ensures(constant_kinds, (), out),
        0 <= i < out@.len(),
        0 <= j < out@.len(),
        call_ensures(is_chosen, (Some(out@[i].1), out@[j].1), chosen),
    ensures
        out@[i].1 == out@[j].1 <==> i == j,
        chosen <==> i == j,
        out@[i].0@ == out@[j].0@ ==> i == j,
{
    reveal_strlit("#");
    reveal_strlit("v2");
    reveal_strlit("v3");
    reveal_strlit("v4");
    reveal_strlit("🎨");
    assert("v2"@[1] == '2' && "v3"@[1] == '3' && "v4"@[1] == '4' && "#"@[0] == '#');
    assert("#"@.len() == 1 && "v2"@.len() == 2 && "v3"@.len() == 2 && "v4"@.len() == 2
        && "🎨"@.len() == 1);
    assert("🎨"@[0] != '#');
}

/// A knob that becomes a colour starts white and has no range; one that becomes anything else
/// keeps its value and its range. A range is shown for a single number alone.
pub proof fn law_a_colour_has_no_range(k: &mut Knob, t: KnobType, shown: bool, i: int)
    requires
        call_ensures(Knob::set_type, (k, t), ()),
        call_ensures(Knob::shows_range, (final(k),), shown),
        0 <= i < 4,
    ensures
        final(k).ty == t.ty && final(k).is_color == t.is_color,
        t.is_color ==> final(k).range is None && !shown && final(k).default@[i] == ONE,
        !t.is_color ==> final(k).range == old(k).range && final(k).default == old(k).default,
        shown <==> t.ty == ValueType::Float && !t.is_color,
{
}

/// To open the shader that is open changes nothing. Another is read anew, from nothing that the
/// one before left behind; what was edited there is written first.
pub proof fn law_a_shader_is_opened_from_nothing(
    s: &mut ShaderGraphState,
    path: &str,
    docked: bool,
    out: OpenPlan,
)
    requires
        call_ensures(ShaderGraphState::open_shader_in_graph, (s, path, docked), out),
    ensures
        out.focus == docked,
        out.read <==> opt_text(old(s).path) != Some(path@),
        !out.read ==> *final(s) == *old(s) && out.write is None,
        opt_text(final(s).path) == Some(path@),
        out.read ==> final(s).sel@.len() == 0 && !final(s).history.dirty && final(s).history@.undo.len() == 0 && final(s).history@.redo.len() == 0 && final(s).view@.len() == 0
            && final(s).err is None && final(s).wire is None && final(s).drag is None && final(s).field_buf is None && final(s).status is None,
        out.write is Some ==> old(s).history.dirty && old(s).has_ir && opt_text(out.write)
            == opt_text(old(s).path),
        out.read && old(s).history.dirty && old(s).has_ir && old(s).path is Some ==> out.write is Some,
{
}

/// A file that cannot be read or does not parse shows no nodes and says why; what is selected
/// and where nodes stood is kept for when it can.
pub proof fn law_what_does_not_parse_shows_no_nodes(
    a: &mut ShaderGraphState,
    why: &str,
    b: &mut ShaderGraphState,
    src: &str,
    line: u32,
    column: u32,
)
    requires
        call_ensures(ShaderGraphState::unreadable, (a, why), ()),
        call_ensures(ShaderGraphState::unparsed, (b, src, line, column, why), ()),
    ensures
        old(a).path is Some ==> !final(a).has_ir && final(a).view@.len() == 0 && final(a).err is Some
            && why@.is_suffix_of(final(a).err->Some_0@),
        old(a).path is None ==> *final(a) == *old(a),
        final(a).sel == old(a).sel && final(a).pos_cache == old(a).pos_cache && final(a).history == old(
            a,
        ).history,
        !final(b).has_ir && final(b).view@.len() == 0 && final(b).err is Some && final(b).err_key is None,
        (decimal(line as nat) + ":"@ + decimal(column as nat) + ": "@ + why@).is_prefix_of(
            final(b).err->Some_0@,
        ),
        final(b).history@.src == src@,
        final(b).sel == old(b).sel && final(b).pos_cache == old(b).pos_cache,
{
    if old(a).path is Some {
        let e = final(a).err->Some_0@;
        assert(e.subrange(e.len() - why@.len(), e.len() as int) =~= why@);
    }
    let e = final(b).err->Some_0@;
    let k = decimal(line as nat) + ":"@ + decimal(column as nat) + ": "@ + why@;
    assert(e.subrange(0, k.len() as int) =~= k);
}

/// An edit that fails, or is refused, changes no history and says why; one that stands can be
/// undone and is to be written. No edit touches what is selected or shown.
pub proof fn law_a_refused_edit_says_why(
    s: &mut ShaderGraphState,
    edit: &Result<(), String>,
    strict: bool,
    check: &CheckOutcome,
    out: CommitStep,
)
    requires
        call_ensures(ShaderGraphState::commit, (s, edit, strict, check), out),
    ensures
        final(s).sel == old(s).sel && final(s).view == old(s).view && final(s).path == old(s).path
            && final(s).has_ir == old(s).has_ir && final(s).err == old(s).err,
        out is Nothing ==> *final(s) == *old(s),
        out is Flush ==> final(s).history.dirty && final(s).status == old(s).status,
        out is Revert ==> final(s).history == old(s).history && final(s).status is Some,
        out is Revert && *edit is Err ==> final(s).status->Some_0.text@ == edit->Err_0@,
        out is Revert && *edit is Ok ==> *check is Wrong && (check->message matches Some(m)
            ==> m@.is_suffix_of(final(s).status->Some_0.text@)),
{
    if out is Revert && *edit is Ok {
        if let Some(m) = check->message {
            let t = final(s).status->Some_0.text@;
            assert(t.subrange(t.len() - m@.len(), t.len() as int) =~= m@);
        }
    }
}

/// What was written is no longer dirty; what could not be written stays as it was, and it is
/// said why.
pub proof fn law_what_is_written_is_clean(
    s: &mut ShaderGraphState,
    outcome: &Result<(), String>,
    printed: &str,
    out: bool,
)
    requires
        call_ensures(ShaderGraphState::flushed, (s, outcome, printed), out),
    ensures
        out <==> *outcome is Ok,
        out ==> !final(s).history.dirty && final(s).history@.pending is None && final(s).status == old(
            s,
        ).status,
        out ==> (final(s).history@.redo.len() == 0 || final(s).history@.redo == old(
            s,
        ).history@.redo),
        !out ==> final(s).history == old(s).history && final(s).status is Some && outcome->Err_0@
            .is_suffix_of(final(s).status->Some_0.text@),
        final(s).sel == old(s).sel && final(s).view == old(s).view,
{
    if !out {
        let why = outcome->Err_0@;
        let t = final(s).status->Some_0.text@;
        assert(t.subrange(t.len() - why.len(), t.len() as int) =~= why);
    }
}

/// To grab an input takes up a wire, and cuts the one that was there; to let go of a wire holds
/// none any more, and nothing else changes.
pub proof fn law_a_grabbed_input_is_cut(
    a: &mut ShaderGraphState,
    port: Port,
    cut: Option<u64>,
    b: &mut ShaderGraphState,
    over_input: Option<u64>,
    over_output: Option<u64>,
    out: Option<(u64, u64)>,
)
    requires
        call_ensures(ShaderGraphState::grab_input, (a, port), cut),
        call_ensures(ShaderGraphState::release_wire, (b, over_input, over_output), out),
    ensures
        cut is Some <==> port.wired is Some,
        cut matches Some(site) ==> site == port.site,
        final(a).wire == Some(grabbed(port)),
        final(a).sel == old(a).sel && final(a).view == old(a).view,
        final(b).wire is None,
        out == connection(old(b).wire, over_input, over_output),
        final(b).sel == old(b).sel && final(b).view == old(b).view,
{
}

/// A drag that begins on a selected node moves the whole selection; one that begins on another
/// node selects that and moves it alone. Nothing is moved that is not shown.
pub proof fn law_a_drag_moves_the_selection(s: &mut ShaderGraphState, key: u64, other: u64)
    requires
        call_ensures(ShaderGraphState::drag_begins, (s, key), ()),
    ensures
        final(s).sel@.contains(key),
        old(s).sel@.contains(key) ==> final(s).sel@ == old(s).sel@,
        !old(s).sel@.contains(key) ==> (final(s).sel@.contains(other) <==> other == key),
        final(s).drag is Some,
        final(s).drag->Some_0@.contains(other) <==> final(s).sel@.contains(other) && keys_in(
            old(s).view@,
        ).contains(other),
        final(s).view == old(s).view && final(s).history == old(s).history,
{
    let d = final(s).drag->Some_0@;
    let want = final(s).sel@.intersect(keys_in(old(s).view@).to_set());
    assert(is_listing(d, want));
    assert(d.to_set().contains(other) <==> want.contains(other));
}

/// The menu of a node acts on the whole selection where the node is one of several selected,
/// and on the node alone elsewhere. The end of the graph is not deleted, one node alone is
/// renamed, and a picture is offered to be hidden exactly where it is shown.
pub proof fn law_a_menu_acts_on_its_targets(s: &ShaderGraphState, n: &GNode, out: NodeMenu, other: u64)
    requires
        call_ensures(ShaderGraphState::node_menu, (s, n), out),
    ensures
        s.sel@.contains(n.key) && s.sel@.len() > 1 ==> (out.targets@.contains(other)
            <==> s.sel@.contains(other)) && !out.rename,
        !(s.sel@.contains(n.key) && s.sel@.len() > 1) ==> (out.targets@.contains(other) <==> other
            == n.key),
        out.rename ==> is_renamable(n.key_kind) && out.targets@.len() == 1,
        out.delete is None <==> n.key_kind is Out,
        out.preview is None <==> !is_previewable(n.kind),
        out.preview is Some ==> (out.preview->Some_0@ == "👁 Show preview"@ || out.preview->Some_0@
            == "👁 Hide preview"@),
        out.preview is Some && s.pv_hidden@.contains(n.key) ==> out.preview->Some_0@
            == "👁 Show preview"@,
        out.preview is Some && !s.pv_hidden@.contains(n.key) ==> out.preview->Some_0@
            == "👁 Hide preview"@,
{
    if s.sel@.contains(n.key) && s.sel@.len() > 1 {
        assert(is_listing(out.targets@, s.sel@));
        assert(out.targets@.to_set().contains(other) <==> s.sel@.contains(other));
    } else {
        assert(out.targets@[0] == n.key);
    }
}

/// A field that is left holds nothing any more, and what was typed counts only where it was not
/// called off. Nothing else changes.
pub proof fn law_a_field_that_is_left_is_empty(
    s: &mut ShaderGraphState,
    current: Option<&str>,
    cancelled: bool,
    out: Option<String>,
)
    requires
        call_ensures(ShaderGraphState::field_left, (s, current, cancelled), out),
    ensures
        final(s).field_buf is None,
        old(s).field_buf is None ==> out is None,
        cancelled ==> out is None,
        final(s).sel == old(s).sel && final(s).history == old(s).history,
{
}

/// A shader that is picked is called by the name of its file.
pub proof fn law_a_picked_shader_is_called_by_its_file(path: &Option<String>, out: String)
    requires
        call_ensures(picked_label, (path,), out),
    ensures
        *path is Some && name_in(path->Some_0@) is Some ==> Some(out@) == name_in(path->Some_0@),
        *path is None ==> out@ == "(pick a shader)"@,
{
}

} // verus!
