//! Tools that a script brings into the editor: the buttons that it declares, and
//! the terrain that it has generated in the background.

use crate::lists::{lemma_filter_holds, lemma_filter_none, lemma_filter_step, place_of};
use crate::script_meta::{after_line, button_target, first_line, pair_texts};
use crate::system_gen::{line_models, LogLevel, LogLine};
use crate::text::{
    begins_with, chars_of, copy_of, decimal, decimal_text, find, has_prefix, joined,
    lemma_index_of, replace_char, replaced, texts, trim, trimmed, words, words_of,
};
use std::collections::HashSet;
use vstd::prelude::*;
use vstd::slice::slice_subrange;

verus! {

broadcast use vstd::std_specs::hash::group_hash_axioms;

// ---- buttons ---------------------------------------------------------------

/// The words behind the mark of a button, where the line has that mark.
pub open spec fn button_words(line: Seq<char>) -> Seq<Seq<char>> {
    let t = trim(line);
    if has_prefix(t, "--@editorButton"@) {
        words(trim(t.skip("--@editorButton"@.len() as int)))
    } else {
        seq![]
    }
}

/// The buttons that a source declares: on each line that has the mark and a word
/// behind it, the label and the function that it calls. An underscore in a label
/// stands for a blank.
pub open spec fn buttons_in(src: Seq<char>) -> Seq<(Seq<char>, Seq<char>)>
    decreases src.len(),
{
    proof {
        lemma_index_of(src, '\n');
    }
    if src.len() == 0 {
        seq![]
    } else {
        let ws = button_words(first_line(src));
        (if ws.len() > 0 {
            seq![(replaced(ws[0], '_', ' '), button_target(ws))]
        } else {
            seq![]
        }) + buttons_in(after_line(src))
    }
}

/// The buttons that a source declares.
pub fn script_editor_buttons(src: &str) -> (out: Vec<(String, String)>)
    ensures
        pair_texts(out@) == buttons_in(src@),
{
    let s: Vec<char> = chars_of(src);
    let mark: Vec<char> = chars_of("--@editorButton");
    let mut out: Vec<(String, String)> = Vec::new();
    let mut at: usize = 0;
    assert(s@.skip(0) =~= s@);
    assert(pair_texts(out@) + buttons_in(s@) =~= buttons_in(s@));
    while at < s.len()
        invariant
            at <= s.len(),
            mark@ == "--@editorButton"@,
            pair_texts(out@) + buttons_in(s@.skip(at as int)) == buttons_in(s@),
        decreases s.len() - at,
    {
        let rest: &[char] = slice_subrange(s.as_slice(), at, s.len());
        assert(rest@ =~= s@.skip(at as int));
        let n: usize = find(rest, '\n');
        let hi: usize = if n < rest.len() && n > 0 && rest[n - 1] == '\r' {
            n - 1
        } else {
            n
        };
        let line: &[char] = trimmed(slice_subrange(rest, 0, hi));
        assert(rest@.subrange(0, hi as int) =~= first_line(rest@));
        let ghost was = out@;
        let ghost ws = button_words(first_line(rest@));
        if begins_with(line, mark.as_slice()) {
            let behind: &[char] = slice_subrange(line, mark.len(), line.len());
            assert(behind@ =~= line@.skip("--@editorButton"@.len() as int));
            let parts: Vec<String> = words_of(trimmed(behind));
            if parts.len() > 0 {
                assert(texts(parts@)[0] == parts@[0]@);
                let func: String = if parts.len() > 1 {
                    assert(texts(parts@)[1] == parts@[1]@);
                    parts[1].clone()
                } else {
                    parts[0].clone()
                };
                let label: String = replace_char(chars_of(parts[0].as_str()).as_slice(), '_', ' ');
                out.push((label, func));
                assert(pair_texts(out@) =~= pair_texts(was).push(
                    (replaced(ws[0], '_', ' '), button_target(ws)),
                ));
            }
        }
        let next: usize = if n < rest.len() {
            at + n + 1
        } else {
            s.len()
        };
        proof {
            if n < rest@.len() {
                assert(after_line(rest@) =~= s@.skip(next as int));
            } else {
                assert(after_line(rest@) =~= s@.skip(next as int));
            }
            assert(pair_texts(was) + buttons_in(rest@) =~= pair_texts(out@) + buttons_in(
                s@.skip(next as int),
            ));
        }
        at = next;
    }
    assert(buttons_in(s@.skip(at as int)) =~= seq![]);
    assert(pair_texts(out@) =~= buttons_in(s@));
    out
}

/// A line without the mark declares no button; one with it declares the words behind it.
pub proof fn law_a_button_needs_its_mark(line: Seq<char>)
    ensures
        !has_prefix(trim(line), "--@editorButton"@) ==> button_words(line).len() == 0,
        has_prefix(trim(line), "--@editorButton"@) ==> button_words(line) == words(
            trim(trim(line).skip("--@editorButton"@.len() as int)),
        ),
{
}

/// A line declares one button at most, before those of the lines below it. Its label is its
/// first word with blanks for underscores, and it calls the second, or the first where there
/// is no second.
pub proof fn law_buttons_come_in_the_order_of_the_lines(src: Seq<char>)
    requires
        src.len() > 0,
    ensures
        ({
            let ws = button_words(first_line(src));
            let all = buttons_in(src);
            let rest = buttons_in(after_line(src));
            &&& ws.len() == 0 ==> all == rest
            &&& ws.len() > 0 ==> all.len() == rest.len() + 1 && all.skip(1) == rest && all[0].0
                == replaced(ws[0], '_', ' ')
            &&& ws.len() == 1 ==> all[0].1 == ws[0]
            &&& ws.len() > 1 ==> all[0].1 == ws[1]
        }),
{
    let ws = button_words(first_line(src));
    let rest = buttons_in(after_line(src));
    if ws.len() > 0 {
        assert(buttons_in(src).skip(1) =~= rest);
    } else {
        assert(buttons_in(src) =~= rest);
    }
}

// ---- terrain that is generated in the background ---------------------------

/// The generation of terrain fields: whether a batch is under way, and which
/// fields of it have not come yet.
pub struct PlanetJobs {
    pub running: bool,
    pub pending: HashSet<u64>,
}

/// What a request for terrain fields comes to.
pub enum GenerateStep {
    /// There is nothing to generate.
    Nothing,
    /// A batch is under way: the request is dropped, with this line.
    Dropped { line: LogLine },
    /// Generate them, with this line.
    Start { line: LogLine },
}

/// What comes of a field that has arrived.
pub enum ArrivalStep {
    /// No node carries it: say so.
    NoNode { line: LogLine },
    /// It is the field of this node from now on: it has to be saved, and drawn
    /// anew. Where a game is running, its collision has to be built anew too,
    /// with this line.
    Adopt { entity: u64, rebuild: Option<LogLine> },
}

/// The node that carries the terrain `id`: the first of those that do.
pub open spec fn carrier_of(nodes: Seq<(u64, u64)>, id: u64) -> Option<u64>
    decreases nodes.len(),
{
    if nodes.len() == 0 {
        None
    } else if nodes[0].1 == id {
        Some(nodes[0].0)
    } else {
        carrier_of(nodes.skip(1), id)
    }
}

/// The node that carries the terrain `id`.
fn find_carrier(nodes: &Vec<(u64, u64)>, id: u64) -> (out: Option<u64>)
    ensures
        out == carrier_of(nodes@, id),
{
    let mut i: usize = 0;
    assert(nodes@.skip(0) =~= nodes@);
    while i < nodes.len()
        invariant
            i <= nodes.len(),
            carrier_of(nodes@, id) == carrier_of(nodes@.skip(i as int), id),
        decreases nodes.len() - i,
    {
        let node: (u64, u64) = nodes[i];
        if node.1 == id {
            return Some(node.0);
        }
        assert(nodes@.skip(i as int).skip(1) =~= nodes@.skip(i + 1));
        i += 1;
    }
    None
}

/// The line for a field that no node carries.
pub open spec fn no_node_line(id: u64) -> (LogLevel, Seq<char>) {
    (
        LogLevel::Warn,
        "⛰ generated field for terrain id "@ + decimal(id as nat) + ", but no node carries it"@,
    )
}

/// The line for a field that came while a game is running.
pub open spec fn live_line(id: u64) -> (LogLevel, Seq<char>) {
    (
        LogLevel::Debug,
        "⛰ terrain id "@ + decimal(id as nat) + " generated during Play — collision live"@,
    )
}

/// A line as plain data.
pub open spec fn line_model(l: LogLine) -> (LogLevel, Seq<char>) {
    (l.level, l.text@)
}

impl PlanetJobs {
    /// Nothing is under way.
    pub fn new() -> (out: Self)
        ensures
            !out.running,
            out.pending@ == Set::<u64>::empty(),
    {
        PlanetJobs { running: false, pending: HashSet::new() }
    }

    /// What a request for the fields `ids` comes to. One batch is generated at a
    /// time.
    pub fn drain_terrain_generates(&mut self, ids: &Vec<u64>) -> (out: GenerateStep)
        ensures
            if ids@.len() == 0 {
                out is Nothing && final(self).running == old(self).running
                    && final(self).pending@ == old(self).pending@
            } else if old(self).running {
                out matches GenerateStep::Dropped { line } && line_model(line) == (
                    LogLevel::Warn,
                    "terrain.generatePlanet: a generation batch is already running — request dropped"@,
                ) && final(self).running && final(self).pending@ == old(self).pending@
            } else {
                out matches GenerateStep::Start { line } && line_model(line) == (
                    LogLevel::Debug,
                    "⛰ generating "@ + decimal(ids@.len())
                        + " terrain field(s) in the background…"@,
                ) && final(self).running && final(self).pending@ == old(self).pending@.union(
                    ids@.to_set(),
                )
            },
    {
        if ids.len() == 0 {
            return GenerateStep::Nothing;
        }
        if self.running {
            return GenerateStep::Dropped {
                line: LogLine {
                    level: LogLevel::Warn,
                    text: copy_of(
                        "terrain.generatePlanet: a generation batch is already running — request dropped",
                    ),
                },
            };
        }
        let n: String = decimal_text(ids.len() as u64);
        let text: String = joined(
            joined("⛰ generating ", n.as_str()).as_str(),
            " terrain field(s) in the background…",
        );
        let ghost was = self.pending@;
        let mut i: usize = 0;
        assert(was =~= was.union(ids@.take(0).to_set()));
        while i < ids.len()
            invariant
                i <= ids.len(),
                self.pending@ == was.union(ids@.take(i as int).to_set()),
            decreases ids.len() - i,
        {
            let _new: bool = self.pending.insert(ids[i]);
            proof {
                let less = ids@.take(i as int);
                let more = ids@.take(i + 1);
                assert(more =~= less.push(ids@[i as int]));
                assert(more.to_set() =~= less.to_set().insert(ids@[i as int])) by {
                    assert forall|x: u64| more.to_set().contains(x) <==> less.to_set().insert(
                        ids@[i as int],
                    ).contains(x) by {
                        if less.contains(x) {
                            let k = choose|k: int| 0 <= k < less.len() && less[k] == x;
                            assert(more[k] == x);
                        }
                        if more.contains(x) && x != ids@[i as int] {
                            let k = choose|k: int| 0 <= k < more.len() && more[k] == x;
                            assert(less[k] == x);
                        }
                        assert(more[i as int] == ids@[i as int]);
                    }
                }
                assert(self.pending@ =~= was.union(more.to_set()));
            }
            i += 1;
        }
        assert(ids@.take(i as int) =~= ids@);
        self.running = true;
        GenerateStep::Start { line: LogLine { level: LogLevel::Debug, text } }
    }

    /// What comes of the field `id`, which has arrived: `nodes` are the nodes
    /// that carry terrain, each with the number of its terrain, and `playing`
    /// says whether a game is running.
    pub fn arrived(&mut self, id: u64, nodes: &Vec<(u64, u64)>, playing: bool) -> (out: ArrivalStep)
        ensures
            final(self).running == old(self).running,
            final(self).pending@ == old(self).pending@.remove(id),
            match carrier_of(nodes@, id) {
                None => out matches ArrivalStep::NoNode { line } && line_model(line)
                    == no_node_line(id),
                Some(e) => out matches ArrivalStep::Adopt { entity, rebuild } && entity == e && (
                match rebuild {
                    Some(line) => playing && line_model(line) == live_line(id),
                    None => !playing,
                }),
            },
    {
        let _was: bool = self.pending.remove(&id);
        let n: String = decimal_text(id);
        match find_carrier(nodes, id) {
            None => {
                let text: String = joined(
                    joined("⛰ generated field for terrain id ", n.as_str()).as_str(),
                    ", but no node carries it",
                );
                ArrivalStep::NoNode { line: LogLine { level: LogLevel::Warn, text } }
            },
            Some(entity) => {
                let rebuild: Option<LogLine> = if playing {
                    let text: String = joined(
                        joined("⛰ terrain id ", n.as_str()).as_str(),
                        " generated during Play — collision live",
                    );
                    Some(LogLine { level: LogLevel::Debug, text })
                } else {
                    None
                };
                ArrivalStep::Adopt { entity, rebuild }
            },
        }
    }

    /// The batch is over, whether or not every field came.
    pub fn batch_over(&mut self)
        ensures
            !final(self).running,
            final(self).pending@ == Set::<u64>::empty(),
    {
        self.running = false;
        self.pending.clear();
    }
}

/// The line for a field that is ready: how many chunks it has, and how many
/// seconds it took.
pub fn ready_line(id: u64, chunks: u64, seconds: &str) -> (out: LogLine)
    ensures
        line_model(out) == (
            LogLevel::Debug,
            "⛰ terrain id "@ + decimal(id as nat) + " ready — "@ + decimal(chunks as nat)
                + " chunks in "@ + seconds@ + "s"@,
        ),
{
    let head: String = joined(
        joined("⛰ terrain id ", decimal_text(id).as_str()).as_str(),
        " ready — ",
    );
    let middle: String = joined(
        joined(head.as_str(), decimal_text(chunks).as_str()).as_str(),
        " chunks in ",
    );
    let text: String = joined(joined(middle.as_str(), seconds).as_str(), "s");
    LogLine { level: LogLevel::Debug, text }
}

/// Drops the terrain of nodes that are not among `live`, after an action that
/// may have destroyed some. Has anything to be drawn anew?
pub fn prune_terrains(terrains: &mut Vec<u64>, live: &Vec<u64>) -> (out: bool)
    ensures
        final(terrains)@ == old(terrains)@.filter(|e: u64| live@.contains(e)),
        out == (final(terrains)@.len() != old(terrains)@.len()),
{
    let ghost keep = |e: u64| live@.contains(e);
    let ghost all = terrains@;
    let n: usize = terrains.len();
    let mut kept: Vec<u64> = Vec::new();
    let mut i: usize = 0;
    proof {
        lemma_filter_none(all, keep);
    }
    while i < n
        invariant
            i <= n,
            n == all.len(),
            all == terrains@,
            keep == (|e: u64| live@.contains(e)),
            kept@ == all.take(i as int).filter(keep),
        decreases n - i,
    {
        proof {
            lemma_filter_step(all, i as int, keep);
        }
        let e: u64 = terrains[i];
        if place_of(live, e) < live.len() {
            kept.push(e);
        }
        i += 1;
    }
    proof {
        lemma_filter_none(all, keep);
    }
    let changed: bool = kept.len() != n;
    *terrains = kept;
    changed
}

/// Every field that a started batch asks for is waited for, and none that was
/// waited for is forgotten.
pub proof fn law_what_is_asked_for_is_waited_for(before: Set<u64>, ids: Seq<u64>)
    requires
        ids.len() > 0,
    ensures
        forall|i: int|
            0 <= i < ids.len() ==> before.union(ids.to_set()).contains(#[trigger] ids[i]),
        before.subset_of(before.union(ids.to_set())),
{
}

/// A field belongs to the first node that carries its terrain, and to none exactly where none
/// does.
pub proof fn law_the_first_carrier_gets_the_field(nodes: Seq<(u64, u64)>, id: u64)
    ensures
        carrier_of(nodes, id) is None <==> forall|i: int|
            0 <= i < nodes.len() ==> (#[trigger] nodes[i]).1 != id,
        carrier_of(nodes, id) matches Some(e) ==> exists|i: int|
            0 <= i < nodes.len() && #[trigger] nodes[i] == (e, id) && forall|j: int|
                0 <= j < i ==> (#[trigger] nodes[j]).1 != id,
    decreases nodes.len(),
{
    if nodes.len() > 0 {
        let rest = nodes.skip(1);
        if nodes[0].1 == id {
            assert(nodes[0] == (nodes[0].0, id));
        } else {
            law_the_first_carrier_gets_the_field(rest, id);
            if let Some(e) = carrier_of(rest, id) {
                let i = choose|i: int|
                    0 <= i < rest.len() && #[trigger] rest[i] == (e, id) && forall|j: int|
                        0 <= j < i ==> (#[trigger] rest[j]).1 != id;
                assert(nodes[i + 1] == rest[i]);
                assert forall|j: int| 0 <= j < i + 1 implies (#[trigger] nodes[j]).1 != id by {
                    if j > 0 {
                        assert(rest[j - 1] == nodes[j]);
                    }
                }
            } else {
                assert forall|i: int| 0 <= i < nodes.len() implies (#[trigger] nodes[i]).1
                    != id by {
                    if i > 0 {
                        assert(rest[i - 1] == nodes[i]);
                    }
                }
            }
        }
    }
}

// ---- an action -------------------------------------------------------------

/// What an action leaves to be applied.
#[derive(Clone, Copy, Debug, PartialEq, Eq, Structural)]
pub enum ActionQueue {
    /// Nodes that are made, copied and destroyed.
    Spawns,
    /// Dabs and paint on terrain.
    TerrainOps,
    /// Terrain that is generated.
    TerrainFields,
    /// Other models for nodes.
    Models,
    Bodies,
    BodyHeights,
    BodyPlaces,
    Marks,
    DrawnLines,
    Effects,
    Animations,
    Sounds,
    TimeWarp,
}

/// Is it part of the scene that is edited, rather than of a game that runs?
pub open spec fn is_edit(q: ActionQueue) -> bool {
    q is Spawns || q is TerrainOps || q is TerrainFields || q is Models
}

/// What is done with what an action leaves, in order: `true` where it is applied,
/// `false` where it is dropped, so that it does not leak into the next game.
pub open spec fn queues_in_order() -> Seq<(ActionQueue, bool)> {
    seq![
        (ActionQueue::Spawns, true),
        (ActionQueue::TerrainOps, true),
        (ActionQueue::TerrainFields, true),
        (ActionQueue::Bodies, false),
        (ActionQueue::BodyHeights, false),
        (ActionQueue::BodyPlaces, false),
        (ActionQueue::Marks, false),
        (ActionQueue::DrawnLines, false),
        (ActionQueue::Effects, false),
        (ActionQueue::Animations, false),
        (ActionQueue::Sounds, false),
        (ActionQueue::TimeWarp, false),
        (ActionQueue::Models, true),
    ]
}

/// What is done with what an action leaves, in order.
pub fn action_queues() -> (out: Vec<(ActionQueue, bool)>)
    ensures
        out@ == queues_in_order(),
{
    let out: Vec<(ActionQueue, bool)> = vec![
        (ActionQueue::Spawns, true),
        (ActionQueue::TerrainOps, true),
        (ActionQueue::TerrainFields, true),
        (ActionQueue::Bodies, false),
        (ActionQueue::BodyHeights, false),
        (ActionQueue::BodyPlaces, false),
        (ActionQueue::Marks, false),
        (ActionQueue::DrawnLines, false),
        (ActionQueue::Effects, false),
        (ActionQueue::Animations, false),
        (ActionQueue::Sounds, false),
        (ActionQueue::TimeWarp, false),
        (ActionQueue::Models, true),
    ];
    assert(out@ =~= queues_in_order());
    out
}

/// Nothing that an action leaves is forgotten, what edits the scene is applied,
/// and nothing else is.
pub proof fn law_an_action_edits_the_scene_and_no_game(q: ActionQueue)
    ensures
        queues_in_order().contains((q, is_edit(q))),
        !queues_in_order().contains((q, !is_edit(q))),
{
    let s = queues_in_order();
    assert(s[0] == (ActionQueue::Spawns, true));
    assert(s[1] == (ActionQueue::TerrainOps, true));
    assert(s[2] == (ActionQueue::TerrainFields, true));
    assert(s[3] == (ActionQueue::Bodies, false));
    assert(s[4] == (ActionQueue::BodyHeights, false));
    assert(s[5] == (ActionQueue::BodyPlaces, false));
    assert(s[6] == (ActionQueue::Marks, false));
    assert(s[7] == (ActionQueue::DrawnLines, false));
    assert(s[8] == (ActionQueue::Effects, false));
    assert(s[9] == (ActionQueue::Animations, false));
    assert(s[10] == (ActionQueue::Sounds, false));
    assert(s[11] == (ActionQueue::TimeWarp, false));
    assert(s[12] == (ActionQueue::Models, true));
}

/// Failures as lines.
pub open spec fn failure_lines(errors: Seq<String>) -> Seq<(LogLevel, Seq<char>)> {
    errors.map_values(|e: String| (LogLevel::Error, e@))
}

/// What an action puts on the console: what it logged, and what went wrong where
/// it did not run.
pub fn action_lines(ran: bool, logged: Vec<LogLine>, errors: &Vec<String>) -> (out: Vec<LogLine>)
    ensures
        line_models(out@) == if ran {
            line_models(logged@)
        } else {
            line_models(logged@) + failure_lines(errors@)
        },
{
    let mut out: Vec<LogLine> = logged;
    if ran {
        return out;
    }
    let mut i: usize = 0;
    assert(line_models(out@) =~= line_models(logged@) + failure_lines(errors@).take(0));
    while i < errors.len()
        invariant
            i <= errors.len(),
            line_models(out@) == line_models(logged@) + failure_lines(errors@).take(i as int),
        decreases errors.len() - i,
    {
        let ghost was = out@;
        out.push(LogLine { level: LogLevel::Error, text: copy_of(errors[i].as_str()) });
        assert(line_models(out@) =~= line_models(was).push(
            (LogLevel::Error, errors@[i as int]@),
        ));
        assert(failure_lines(errors@).take(i + 1) =~= failure_lines(errors@).take(i as int).push(
            (LogLevel::Error, errors@[i as int]@),
        ));
        i += 1;
    }
    assert(failure_lines(errors@).take(i as int) =~= failure_lines(errors@));
    out
}

/// A batch that is over runs no more and waits for no field.
pub proof fn law_a_batch_that_is_over_waits_for_nothing(s: &mut PlanetJobs, id: u64)
    requires
        call_ensures(PlanetJobs::batch_over, (s,), ()),
    ensures
        !final(s).running,
        !final(s).pending@.contains(id),
{
}

/// A field that has arrived is waited for no longer, and every other still is.
pub proof fn law_a_field_arrives_once(
    s: &mut PlanetJobs,
    id: u64,
    nodes: &Vec<(u64, u64)>,
    playing: bool,
    out: ArrivalStep,
    other: u64,
)
    requires
        call_ensures(PlanetJobs::arrived, (s, id, nodes, playing), out),
    ensures
        final(s).running == old(s).running,
        final(s).pending@.contains(other) <==> other != id && old(s).pending@.contains(other),
        out is NoNode <==> carrier_of(nodes@, id) is None,
        out matches ArrivalStep::Adopt { entity, rebuild } ==> carrier_of(nodes@, id) == Some(
            entity,
        ) && (rebuild is Some <==> playing),
{
}

/// Terrains go exactly where their nodes are gone, those that stay keep their order, and it is
/// told whether any went.
pub proof fn law_terrains_go_with_their_nodes(
    terrains: &mut Vec<u64>,
    live: &Vec<u64>,
    out: bool,
    e: u64,
)
    requires
        call_ensures(prune_terrains, (terrains, live), out),
    ensures
        final(terrains)@.contains(e) <==> old(terrains)@.contains(e) && live@.contains(e),
        old(terrains)@.contains(e) && !live@.contains(e) ==> out,
        !out ==> final(terrains)@ == old(terrains)@,
{
    let keep = |e: u64| live@.contains(e);
    let t = old(terrains)@;
    lemma_filter_holds(t, keep, e);
    lemma_whole_or_less(t, keep);
    if !out {
        assert(t.filter(keep) == t);
    }
}

/// A filter that keeps as many as there are keeps everything.
proof fn lemma_whole_or_less(t: Seq<u64>, keep: spec_fn(u64) -> bool)
    ensures
        t.filter(keep).len() <= t.len(),
        t.filter(keep).len() == t.len() ==> t.filter(keep) == t,
    decreases t.len(),
{
    reveal(Seq::filter);
    if t.len() > 0 {
        lemma_whole_or_less(t.drop_last(), keep);
        if keep(t.last()) {
            assert(t =~= t.drop_last().push(t.last()));
        }
    } else {
        assert(t.filter(keep) =~= t);
    }
}

/// A batch begins only where there is something to make and none runs; what is asked for
/// meanwhile is dropped with a warning, and every field of a batch that begins is waited for.
pub proof fn law_one_batch_runs_at_a_time(s: &mut PlanetJobs, ids: &Vec<u64>, out: GenerateStep, id: u64)
    requires
        call_ensures(PlanetJobs::drain_terrain_generates, (s, ids), out),
    ensures
        out is Nothing <==> ids@.len() == 0,
        out is Dropped <==> ids@.len() > 0 && old(s).running,
        out is Start <==> ids@.len() > 0 && !old(s).running,
        final(s).running <==> old(s).running || ids@.len() > 0,
        final(s).pending@.contains(id) <==> old(s).pending@.contains(id) || (out is Start
            && ids@.contains(id)),
        out matches GenerateStep::Dropped { line } ==> line.level is Warn,
        out matches GenerateStep::Start { line } ==> line.level is Debug,
{
}

/// What a button logged is shown in any case; where it failed its errors follow, as errors.
pub proof fn law_errors_follow_what_was_logged(
    ran: bool,
    logged: Vec<LogLine>,
    errors: &Vec<String>,
    out: Vec<LogLine>,
    i: int,
)
    requires
        call_ensures(action_lines, (ran, logged, errors), out),
        0 <= i < errors@.len(),
    ensures
        ran ==> line_models(out@) == line_models(logged@),
        !ran ==> out@.len() == logged@.len() + errors@.len() && line_models(out@).take(
            logged@.len() as int,
        ) == line_models(logged@) && line_models(out@)[logged@.len() + i] == (
            LogLevel::Error,
            errors@[i]@,
        ),
{
    let all = line_models(out@);
    assert(all.len() == out@.len());
    if !ran {
        assert(all.take(logged@.len() as int) =~= line_models(logged@));
    }
}

} // verus!
