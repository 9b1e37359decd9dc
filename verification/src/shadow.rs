//! A second run of a match, driven from the log of its inputs.
//!
//! Two things want it. A referee runs the match again at the confirmed frontier
//! only: it never guesses, so it is never wrong, only late. A replay runs the
//! whole log. The two differ in their stopping rule and in nothing else.
//!
//! The simulation itself is driven from outside. [`ShadowSim::advance`] decides:
//! it says which logged inputs to hand over and which tick to run, and is told
//! whether the tick was run.

use crate::order::{are_places, comes_first, sorted_places, Ranked};
use crate::paths::{extension, extension_in, file_stem, join_path, path_below, stem_in};
use crate::text::{copy_of, same_text, text_before};
use vstd::prelude::*;

verus! {

/// How far a shadow may run.
#[derive(Clone, Copy, Debug, PartialEq, Eq)]
pub enum Horizon {
    /// Only ticks for which every peer's input has arrived.
    Confirmed,
    /// Everything in the log.
    WholeLog,
}

/// One logged input: whose it is, and the tick to which it applies.
#[derive(Clone, Copy, Debug, PartialEq, Eq)]
pub struct LogEntry {
    pub peer: u64,
    pub tick: u64,
}

/// The log of a match.
pub struct InputLog {
    /// What the randomness of the match starts from.
    pub seed: u64,
    /// The peers that take part.
    pub peers: Vec<u64>,
    /// How many ticks an input is applied after it was given.
    pub input_delay: u32,
    /// The inputs, in the order in which they were recorded.
    pub entries: Vec<LogEntry>,
}

/// The newest tick of which there is an input, or 0.
pub open spec fn newest(entries: Seq<LogEntry>) -> u64
    decreases entries.len(),
{
    if entries.len() == 0 {
        0
    } else if entries.last().tick > newest(entries.drop_last()) {
        entries.last().tick
    } else {
        newest(entries.drop_last())
    }
}

/// Is there an input of `peer` for `tick`?
pub open spec fn has_input(entries: Seq<LogEntry>, peer: u64, tick: u64) -> bool {
    exists|i: int|
        #![trigger entries[i]]
        0 <= i < entries.len() && entries[i].peer == peer && entries[i].tick == tick
}

impl InputLog {
    /// Is there an input of every peer for `tick`?
    pub open spec fn complete(&self, tick: u64) -> bool {
        forall|k: int|
            0 <= k < self.peers@.len() ==> has_input(
                self.entries@,
                #[trigger] self.peers@[k],
                tick,
            )
    }

    /// A log without inputs.
    pub fn new(seed: u64, input_delay: u32, peers: Vec<u64>) -> (out: Self)
        ensures
            out.seed == seed,
            out.peers == peers,
            out.input_delay == input_delay,
            out.entries@ == Seq::<LogEntry>::empty(),
    {
        InputLog { seed, peers, input_delay, entries: Vec::new() }
    }

    /// Records one more input.
    pub fn record(&mut self, peer: u64, tick: u64)
        ensures
            final(self).seed == old(self).seed,
            final(self).peers == old(self).peers,
            final(self).input_delay == old(self).input_delay,
            final(self).entries@ == old(self).entries@.push(LogEntry { peer, tick }),
    {
        self.entries.push(LogEntry { peer, tick });
    }

    /// The newest tick of which there is an input, or 0.
    pub fn last_tick(&self) -> (out: u64)
        ensures
            out == newest(self.entries@),
    {
        let mut out: u64 = 0;
        let mut i: usize = 0;
        while i < self.entries.len()
            invariant
                i <= self.entries.len(),
                out == newest(self.entries@.take(i as int)),
            decreases self.entries.len() - i,
        {
            assert(self.entries@.take(i + 1).drop_last() == self.entries@.take(i as int));
            if self.entries[i].tick > out {
                out = self.entries[i].tick;
            }
            i += 1;
        }
        assert(self.entries@.take(i as int) == self.entries@);
        out
    }

    /// Is there an input of every peer for `tick`?
    pub fn tick_is_complete(&self, tick: u64) -> (out: bool)
        ensures
            out == self.complete(tick),
    {
        let mut k: usize = 0;
        while k < self.peers.len()
            invariant
                k <= self.peers.len(),
                forall|j: int|
                    0 <= j < k ==> has_input(self.entries@, #[trigger] self.peers@[j], tick),
            decreases self.peers.len() - k,
        {
            let peer: u64 = self.peers[k];
            let mut found: bool = false;
            let mut i: usize = 0;
            while i < self.entries.len() && !found
                invariant
                    i <= self.entries.len(),
                    found ==> has_input(self.entries@, peer, tick),
                    !found ==> forall|j: int|
                        #![trigger self.entries@[j]]
                        0 <= j < i ==> !(self.entries@[j].peer == peer && self.entries@[j].tick
                            == tick),
                decreases self.entries.len() - i,
            {
                if self.entries[i].peer == peer && self.entries[i].tick == tick {
                    assert(self.entries@[i as int].peer == peer);
                    found = true;
                }
                i += 1;
            }
            if !found {
                assert(!has_input(self.entries@, self.peers@[k as int], tick));
                return false;
            }
            k += 1;
        }
        true
    }
}

/// The tick that a shadow at tick `at` may reach under a rule. For a replay that
/// is the newest of the log. For a referee it is the last of the ticks after
/// `at` that are complete without a gap.
pub open spec fn is_horizon(log: InputLog, at: u64, rule: Horizon, h: u64) -> bool {
    match rule {
        Horizon::WholeLog => h == newest(log.entries@),
        Horizon::Confirmed => {
            &&& at <= h
            &&& h == at || h <= newest(log.entries@)
            &&& forall|t: u64| at < t <= h ==> #[trigger] log.complete(t)
            &&& h < newest(log.entries@) ==> !log.complete((h + 1) as u64)
        },
    }
}

/// The place `i` of the log is due by `tick` and has not been handed over.
pub open spec fn is_fresh(
    entries: Seq<LogEntry>,
    fed: Seq<(u64, u64)>,
    tick: int,
    i: int,
) -> bool {
    entries[i].tick <= tick && !fed.contains((entries[i].peer, entries[i].tick))
}

/// The places of the log that are due by `tick` and have not been handed over,
/// in the order of the log.
pub open spec fn fresh(entries: Seq<LogEntry>, fed: Seq<(u64, u64)>, tick: int) -> Seq<int>
    decreases entries.len(),
{
    if entries.len() == 0 {
        seq![]
    } else {
        let front = fresh(entries.drop_last(), fed, tick);
        if is_fresh(entries, fed, tick, entries.len() - 1) {
            front.push(entries.len() - 1)
        } else {
            front
        }
    }
}

/// Whose input, and for which tick, stands at each of these places.
pub open spec fn keys_at(entries: Seq<LogEntry>, places: Seq<int>) -> Seq<(u64, u64)> {
    places.map_values(|i: int| (entries[i].peer, entries[i].tick))
}

/// What happened to a shadow.
#[derive(Clone, Copy, Debug, PartialEq, Eq)]
pub enum ShadowEvent {
    /// It is to run on, by at most so many ticks.
    Start { rule: Horizon, max_ticks: u64 },
    /// The tick that it asked for was run.
    Advanced,
    /// The tick that it asked for could not be run yet.
    Stalled,
}

/// What a shadow wants done.
#[derive(Debug, PartialEq)]
pub enum ShadowAction {
    /// Hand over the inputs at these places of the log, then run `tick`.
    Run { tick: u64, feed: Vec<usize> },
    /// Nothing more. So many ticks were run.
    Done { ticks: u64 },
}

/// A second run of one match.
pub struct ShadowSim {
    /// The log that drives it. It may grow while the match is on.
    pub log: InputLog,
    /// The peer for which the simulation stands in. No decision reads it.
    pub local: u64,
    /// The newest tick that has been simulated.
    pub at: u64,
    /// Whose input, and for which tick, has been handed over. This is no
    /// watermark: a late input lands below the frontier by definition.
    pub fed: Vec<(u64, u64)>,
    /// The tick at which the present run stops.
    pub target: u64,
    /// How many ticks the present run has simulated.
    pub done: u64,
    /// Is a tick being run?
    pub running: bool,
}

/// What the simulation of a match is made from, besides the scene and its scripts.
pub struct DriverStart {
    /// The peer for which it stands in.
    pub local: u64,
    pub seed: u64,
    pub input_delay: u32,
    pub peers: Vec<u64>,
}

/// A shadow, as its decisions see it.
#[verifier::ext_equal]
pub struct ShadowModel {
    pub at: u64,
    pub fed: Seq<(u64, u64)>,
    pub target: u64,
    pub done: u64,
    pub running: bool,
}

impl View for ShadowSim {
    type V = ShadowModel;

    open spec fn view(&self) -> ShadowModel {
        ShadowModel {
            at: self.at,
            fed: self.fed@,
            target: self.target,
            done: self.done,
            running: self.running,
        }
    }
}

/// What a shadow asks for next: the next tick, with every input that is due by
/// it or within the delay after it; or nothing, once it has reached its target.
pub open spec fn asks(
    log: InputLog,
    before: ShadowModel,
    after: ShadowModel,
    action: ShadowAction,
) -> bool {
    if before.at < before.target {
        let due = fresh(log.entries@, before.fed, before.at + 1 + log.input_delay);
        &&& action matches ShadowAction::Run { tick, feed }
        &&& tick == before.at + 1
        &&& feed@.map_values(|i: usize| i as int) == due
        &&& after == (ShadowModel {
            fed: before.fed + keys_at(log.entries@, due),
            running: true,
            ..before
        })
    } else {
        &&& action matches ShadowAction::Done { ticks }
        &&& ticks == before.done
        &&& after == (ShadowModel { running: false, ..before })
    }
}

/// The shadow at the start of a run that stops at `target`.
pub open spec fn started(m: ShadowModel, target: u64) -> ShadowModel {
    ShadowModel { target, done: 0, ..m }
}

/// The shadow once the tick that it asked for was run.
pub open spec fn one_on(m: ShadowModel) -> ShadowModel {
    ShadowModel { at: (m.at + 1) as u64, done: (m.done + 1) as u64, ..m }
}

/// Is this what an event comes to? A shadow is taken on by its log and by what it
/// has done so far, and by nothing else: the peer that it stands in for is not
/// looked at.
pub open spec fn is_advance(
    log: InputLog,
    before: ShadowModel,
    event: ShadowEvent,
    after: ShadowModel,
    action: ShadowAction,
) -> bool {
    match event {
        ShadowEvent::Start { rule, max_ticks } => exists|h: u64, target: u64|
            {
                &&& #[trigger] is_horizon(log, before.at, rule, h)
                &&& target == if h <= before.at + max_ticks {
                    h as int
                } else {
                    before.at + max_ticks
                }
                &&& #[trigger] asks(log, started(before, target), after, action)
            },
        ShadowEvent::Advanced => if before.running {
            asks(log, one_on(before), after, action)
        } else {
            after == before && action == (ShadowAction::Done { ticks: before.done })
        },
        ShadowEvent::Stalled => after == (ShadowModel { running: false, ..before }) && action == (
        ShadowAction::Done { ticks: before.done }),
    }
}

impl ShadowSim {
    /// A tick is run only where there is one to run, and no more ticks have been
    /// run than lie between the start and here.
    pub open spec fn wf(&self) -> bool {
        self@.done <= self@.at && (self@.running ==> self@.at < self@.target)
    }

    /// A shadow of the match that `log` records. Nothing has been simulated.
    pub fn build(log: InputLog, local: u64) -> (out: Self)
        ensures
            out.wf(),
            is_built(out, log, local),
    {
        let out: ShadowSim = ShadowSim {
            log,
            local,
            at: 0,
            fed: Vec::new(),
            target: 0,
            done: 0,
            running: false,
        };
        assert(out@ =~= (ShadowModel { at: 0, fed: seq![], target: 0, done: 0, running: false }));
        out
    }

    /// What the simulation that the shadow drives is made from, besides the scene and
    /// its scripts.
    pub fn driver_start(&self) -> (out: DriverStart)
        ensures
            out.local == self.local,
            out.seed == self.log.seed,
            out.input_delay == self.log.input_delay,
            out.peers@ == self.log.peers@,
    {
        let mut peers: Vec<u64> = Vec::new();
        let mut i: usize = 0;
        while i < self.log.peers.len()
            invariant
                i <= self.log.peers.len(),
                peers@ == self.log.peers@.take(i as int),
            decreases self.log.peers.len() - i,
        {
            peers.push(self.log.peers[i]);
            i += 1;
        }
        assert(peers@ =~= self.log.peers@);
        DriverStart {
            local: self.local,
            seed: self.log.seed,
            input_delay: self.log.input_delay,
            peers,
        }
    }

    /// The newest tick that has been simulated.
    pub fn tick(&self) -> (out: u64)
        ensures
            out == self@.at,
    {
        self.at
    }

    /// The tick that the shadow may reach now.
    pub fn horizon(&self, rule: Horizon) -> (out: u64)
        ensures
            is_horizon(self.log, self@.at, rule, out),
    {
        let last: u64 = self.log.last_tick();
        match rule {
            Horizon::WholeLog => last,
            Horizon::Confirmed => {
                let mut t: u64 = self.at;
                while t < last && self.log.tick_is_complete(t + 1)
                    invariant
                        last == newest(self.log.entries@),
                        self.at <= t,
                        t == self.at || t <= last,
                        forall|u: u64| self.at < u <= t ==> #[trigger] self.log.complete(u),
                    decreases last - t,
                {
                    t += 1;
                }
                t
            },
        }
    }

    /// The places of the log that are due by `tick` and have not been handed
    /// over. From now on they have been.
    fn feed_through(&mut self, tick: u64) -> (out: Vec<usize>)
        ensures
            out@.map_values(|i: usize| i as int) == fresh(
                old(self).log.entries@,
                old(self)@.fed,
                tick as int,
            ),
            final(self).log == old(self).log,
            final(self).local == old(self).local,
            final(self)@ == (ShadowModel {
                fed: old(self)@.fed + keys_at(
                    old(self).log.entries@,
                    fresh(old(self).log.entries@, old(self)@.fed, tick as int),
                ),
                ..old(self)@
            }),
    {
        let mut out: Vec<usize> = Vec::new();
        let ghost entries = self.log.entries@;
        let ghost fed = self.fed@;
        let mut i: usize = 0;
        while i < self.log.entries.len()
            invariant
                i <= self.log.entries.len(),
                *self == *old(self),
                entries == self.log.entries@,
                fed == self.fed@,
                out@.map_values(|p: usize| p as int) == fresh(
                    entries.take(i as int),
                    fed,
                    tick as int,
                ),
            decreases self.log.entries.len() - i,
        {
            let e: LogEntry = self.log.entries[i];
            let mut seen: bool = false;
            let mut j: usize = 0;
            while j < self.fed.len() && !seen
                invariant
                    j <= self.fed.len(),
                    fed == self.fed@,
                    seen ==> fed.contains((e.peer, e.tick)),
                    !seen ==> forall|k: int|
                        0 <= k < j ==> #[trigger] fed[k] != (e.peer, e.tick),
                decreases self.fed.len() - j,
            {
                let key: (u64, u64) = self.fed[j];
                if key.0 == e.peer && key.1 == e.tick {
                    assert(fed[j as int] == (e.peer, e.tick));
                    seen = true;
                }
                j += 1;
            }
            assert(seen == fed.contains((e.peer, e.tick)));
            let ghost front = entries.take(i as int);
            assert(entries.take(i + 1).drop_last() =~= front);
            if e.tick <= tick && !seen {
                let ghost was = out@;
                out.push(i);
                assert(out@.map_values(|p: usize| p as int) =~= was.map_values(
                    |p: usize| p as int,
                ).push(i as int));
            }
            i += 1;
        }
        assert(entries.take(i as int) =~= entries);
        proof {
            lemma_fresh(entries, fed, tick as int);
            let places = out@.map_values(|p: usize| p as int);
            assert forall|p: int| 0 <= p < out@.len() implies 0 <= (#[trigger] out@[p])
                < entries.len() by {
                assert(places[p] == fresh(entries, fed, tick as int)[p]);
            }
        }
        let mut k: usize = 0;
        while k < out.len()
            invariant
                k <= out.len(),
                entries == self.log.entries@,
                self.log == old(self).log,
                self.local == old(self).local,
                out@.map_values(|p: usize| p as int) == fresh(entries, fed, tick as int),
                forall|p: int|
                    0 <= p < out@.len() ==> 0 <= (#[trigger] out@[p]) < entries.len(),
                self@ == (ShadowModel {
                    fed: fed + keys_at(
                        entries,
                        out@.map_values(|p: usize| p as int).take(k as int),
                    ),
                    ..old(self)@
                }),
            decreases out.len() - k,
        {
            let e: LogEntry = self.log.entries[out[k]];
            let ghost places = out@.map_values(|p: usize| p as int);
            assert(places[k as int] == out@[k as int]);
            assert(keys_at(entries, places.take(k + 1)) =~= keys_at(
                entries,
                places.take(k as int),
            ).push((e.peer, e.tick)));
            self.fed.push((e.peer, e.tick));
            assert(self@.fed =~= fed + keys_at(entries, places.take(k + 1)));
            k += 1;
        }
        assert(out@.map_values(|p: usize| p as int).take(k as int) =~= out@.map_values(
            |p: usize| p as int,
        ));
        out
    }

    /// Asks for the next tick, or says that the run is over.
    fn ask(&mut self) -> (out: ShadowAction)
        requires
            old(self)@.done <= old(self)@.at,
        ensures
            final(self).wf(),
            final(self).log == old(self).log,
            final(self).local == old(self).local,
            asks(old(self).log, old(self)@, final(self)@, out),
    {
        if self.at < self.target {
            let next: u64 = self.at + 1;
            let due: u64 = next.saturating_add(self.log.input_delay as u64);
            proof {
                lemma_fresh_reach(
                    self.log.entries@,
                    self.fed@,
                    due as int,
                    self.at + 1 + self.log.input_delay,
                );
            }
            let feed: Vec<usize> = self.feed_through(due);
            self.running = true;
            ShadowAction::Run { tick: next, feed }
        } else {
            self.running = false;
            ShadowAction::Done { ticks: self.done }
        }
    }

    /// Takes the shadow on, one event at a time.
    ///
    /// A run starts with a stopping rule and a cap, and stops at the horizon or
    /// at the cap, whichever comes first; the horizon is the one of that moment.
    /// Each tick is asked for in turn. A tick that could not be run ends the
    /// run, and so does the target. An answer that nobody asked for changes
    /// nothing.
    pub fn advance(&mut self, event: ShadowEvent) -> (out: ShadowAction)
        requires
            old(self).wf(),
        ensures
            final(self).wf(),
            final(self).log == old(self).log,
            final(self).local == old(self).local,
            is_advance(old(self).log, old(self)@, event, final(self)@, out),
    {
        match event {
            ShadowEvent::Start { rule, max_ticks } => {
                let h: u64 = self.horizon(rule);
                let cap: u64 = self.at.saturating_add(max_ticks);
                let target: u64 = if h <= cap {
                    h
                } else {
                    cap
                };
                self.target = target;
                self.done = 0;
                assert(self@ =~= started(old(self)@, target));
                self.ask()
            },
            ShadowEvent::Advanced => {
                if !self.running {
                    return ShadowAction::Done { ticks: self.done };
                }
                self.at = self.at + 1;
                self.done = self.done + 1;
                self.ask()
            },
            ShadowEvent::Stalled => {
                self.running = false;
                ShadowAction::Done { ticks: self.done }
            },
        }
    }
}

/// A tick past the end of time asks for no more than the end of time does.
proof fn lemma_fresh_reach(entries: Seq<LogEntry>, fed: Seq<(u64, u64)>, near: int, far: int)
    requires
        near == far || (near == u64::MAX && far >= near),
    ensures
        fresh(entries, fed, near) == fresh(entries, fed, far),
    decreases entries.len(),
{
    if entries.len() > 0 {
        lemma_fresh_reach(entries.drop_last(), fed, near, far);
    }
}

/// The fresh places are exactly those that are due and have not been handed
/// over, each of them once and in the order of the log.
pub proof fn lemma_fresh(entries: Seq<LogEntry>, fed: Seq<(u64, u64)>, tick: int)
    ensures
        forall|k: int|
            #![trigger fresh(entries, fed, tick)[k]]
            0 <= k < fresh(entries, fed, tick).len() ==> 0 <= fresh(entries, fed, tick)[k]
                < entries.len() && is_fresh(entries, fed, tick, fresh(entries, fed, tick)[k]),
        forall|i: int|
            #![trigger entries[i]]
            0 <= i < entries.len() && is_fresh(entries, fed, tick, i) ==> fresh(
                entries,
                fed,
                tick,
            ).contains(i),
        forall|j: int, k: int|
            0 <= j < k < fresh(entries, fed, tick).len() ==> #[trigger] fresh(
                entries,
                fed,
                tick,
            )[j] < #[trigger] fresh(entries, fed, tick)[k],
    decreases entries.len(),
{
    if entries.len() > 0 {
        let front = entries.drop_last();
        lemma_fresh(front, fed, tick);
        let f = fresh(front, fed, tick);
        let all = fresh(entries, fed, tick);
        assert forall|i: int|
            #![trigger entries[i]]
            0 <= i < entries.len() && is_fresh(entries, fed, tick, i) implies all.contains(i) by {
            if i < front.len() {
                assert(front[i] == entries[i]);
                assert(is_fresh(front, fed, tick, i));
                assert(f.contains(i));
                let k = choose|k: int| 0 <= k < f.len() && f[k] == i;
                assert(all[k] == i);
            } else {
                assert(all[all.len() - 1] == i);
            }
        }
        assert forall|k: int|
            #![trigger all[k]]
            0 <= k < all.len() implies 0 <= all[k] < entries.len() && is_fresh(
            entries,
            fed,
            tick,
            all[k],
        ) by {
            if k < f.len() {
                assert(f[k] == all[k]);
                assert(front[f[k]] == entries[f[k]]);
            }
        }
        assert forall|j: int, k: int| 0 <= j < k < all.len() implies #[trigger] all[j]
            < #[trigger] all[k] by {
            assert(f[j] == all[j]);
            if k < f.len() {
                assert(f[k] == all[k]);
            }
        }
    }
}

// ---- laws ------------------------------------------------------------------

/// A referee never guesses: every tick that it asks for after it was started is
/// complete.
pub proof fn law_a_referee_never_guesses(
    log: InputLog,
    before: ShadowModel,
    h: u64,
    target: u64,
    tick: u64,
)
    requires
        is_horizon(log, before.at, Horizon::Confirmed, h),
        target <= h,
        before.at < tick <= target,
    ensures
        log.complete(tick),
{
}

/// A referee goes as far as it can: where a log is complete from here to the
/// end, the horizon is its newest tick.
pub proof fn law_a_referee_reaches_the_end_of_a_complete_log(log: InputLog, at: u64, h: u64)
    requires
        is_horizon(log, at, Horizon::Confirmed, h),
        at <= newest(log.entries@),
        forall|t: u64| at < t <= newest(log.entries@) ==> #[trigger] log.complete(t),
    ensures
        h == newest(log.entries@),
        is_horizon(log, at, Horizon::WholeLog, h),
{
    if h < newest(log.entries@) {
        assert(log.complete((h + 1) as u64));
    }
}

/// There is one horizon.
pub proof fn law_the_horizon_is_unique(log: InputLog, at: u64, rule: Horizon, g: u64, h: u64)
    requires
        is_horizon(log, at, rule, g),
        is_horizon(log, at, rule, h),
    ensures
        g == h,
{
    match rule {
        Horizon::WholeLog => {},
        Horizon::Confirmed => {
            if g < h {
                assert(log.complete((g + 1) as u64));
            } else if h < g {
                assert(log.complete((h + 1) as u64));
            }
        },
    }
}

/// Are two actions the same?
pub open spec fn same_action(a: ShadowAction, b: ShadowAction) -> bool {
    match (a, b) {
        (ShadowAction::Run { tick: s, feed: f }, ShadowAction::Run { tick: t, feed: g }) => s == t
            && f@ == g@,
        (ShadowAction::Done { ticks: m }, ShadowAction::Done { ticks: n }) => m == n,
        _ => false,
    }
}

/// A match that was recorded is run again as it was: two shadows of one log that
/// have come as far ask for the same ticks and hand over the same inputs, in the
/// same order, whichever peer each of them stands in for.
pub proof fn law_a_match_is_run_again_as_it_was(
    log: InputLog,
    before: ShadowModel,
    event: ShadowEvent,
    a: ShadowModel,
    x: ShadowAction,
    b: ShadowModel,
    y: ShadowAction,
)
    requires
        is_advance(log, before, event, a, x),
        is_advance(log, before, event, b, y),
    ensures
        a == b,
        same_action(x, y),
{
    match event {
        ShadowEvent::Start { rule, max_ticks } => {
            let (g, s) = choose|h: u64, target: u64|
                {
                    &&& #[trigger] is_horizon(log, before.at, rule, h)
                    &&& target == if h <= before.at + max_ticks {
                        h as int
                    } else {
                        before.at + max_ticks
                    }
                    &&& #[trigger] asks(log, started(before, target), a, x)
                };
            let (h, t) = choose|h: u64, target: u64|
                {
                    &&& #[trigger] is_horizon(log, before.at, rule, h)
                    &&& target == if h <= before.at + max_ticks {
                        h as int
                    } else {
                        before.at + max_ticks
                    }
                    &&& #[trigger] asks(log, started(before, target), b, y)
                };
            law_the_horizon_is_unique(log, before.at, rule, g, h);
            assert(s == t);
            lemma_asks_once(log, started(before, s), a, x, b, y);
        },
        ShadowEvent::Advanced => {
            if before.running {
                lemma_asks_once(log, one_on(before), a, x, b, y);
            }
        },
        ShadowEvent::Stalled => {},
    }
}

/// What is asked for is settled by the log and by what was done so far.
proof fn lemma_asks_once(
    log: InputLog,
    before: ShadowModel,
    a: ShadowModel,
    x: ShadowAction,
    b: ShadowModel,
    y: ShadowAction,
)
    requires
        asks(log, before, a, x),
        asks(log, before, b, y),
    ensures
        a == b,
        same_action(x, y),
{
    if before.at < before.target {
        let due = fresh(log.entries@, before.fed, before.at + 1 + log.input_delay);
        let f = x->feed@;
        let g = y->feed@;
        let f_places = f.map_values(|i: usize| i as int);
        let g_places = g.map_values(|i: usize| i as int);
        assert(f_places == due && g_places == due);
        assert forall|i: int| 0 <= i < f.len() implies f[i] == g[i] by {
            assert(f_places[i] == g_places[i]);
        }
        assert(f =~= g);
    }
}

/// An input that has arrived late takes nothing back: the horizon of a longer
/// log is no earlier.
pub proof fn law_a_late_input_never_lowers_the_horizon(
    log: InputLog,
    longer: InputLog,
    at: u64,
    e: LogEntry,
    g: u64,
    h: u64,
)
    requires
        longer.peers == log.peers,
        longer.entries@ == log.entries@.push(e),
        is_horizon(log, at, Horizon::Confirmed, g),
        is_horizon(longer, at, Horizon::Confirmed, h),
    ensures
        g <= h,
{
    assert(longer.entries@.drop_last() =~= log.entries@);
    if h < g {
        assert(log.complete((h + 1) as u64));
        let t = (h + 1) as u64;
        assert forall|k: int| 0 <= k < longer.peers@.len() implies has_input(
            longer.entries@,
            #[trigger] longer.peers@[k],
            t,
        ) by {
            assert(has_input(log.entries@, log.peers@[k], t));
            let i = choose|i: int|
                #![trigger log.entries@[i]]
                0 <= i < log.entries@.len() && log.entries@[i].peer == log.peers@[k]
                    && log.entries@[i].tick == t;
            assert(longer.entries@[i] == log.entries@[i]);
        }
    }
}

/// What has been handed over is never handed over again, however the log grows.
pub proof fn law_nothing_is_fed_twice(
    entries: Seq<LogEntry>,
    later: Seq<LogEntry>,
    fed: Seq<(u64, u64)>,
    tick: int,
    later_tick: int,
    i: int,
)
    requires
        0 <= i < entries.len(),
        entries.len() <= later.len(),
        later[i] == entries[i],
        fresh(entries, fed, tick).contains(i),
    ensures
        !fresh(later, fed + keys_at(entries, fresh(entries, fed, tick)), later_tick).contains(i),
{
    let due = fresh(entries, fed, tick);
    let k = choose|k: int| 0 <= k < due.len() && due[k] == i;
    let now = fed + keys_at(entries, due);
    assert(now[fed.len() + k] == (entries[i].peer, entries[i].tick));
    lemma_fresh(later, now, later_tick);
}

/// A late input is not lost: an entry that is due and was not handed over is
/// handed over with the next tick, however far below the frontier it lies.
pub proof fn law_a_late_input_is_fed(
    log: InputLog,
    before: ShadowModel,
    after: ShadowModel,
    action: ShadowAction,
    i: int,
)
    requires
        asks(log, before, after, action),
        before.at < before.target,
        0 <= i < log.entries@.len(),
        log.entries@[i].tick <= before.at + 1 + log.input_delay,
        !before.fed.contains((log.entries@[i].peer, log.entries@[i].tick)),
    ensures
        action matches ShadowAction::Run { tick, feed } && feed@.map_values(
            |p: usize| p as int,
        ).contains(i),
        after.fed.contains((log.entries@[i].peer, log.entries@[i].tick)),
{
    let due = fresh(log.entries@, before.fed, before.at + 1 + log.input_delay);
    lemma_fresh(log.entries@, before.fed, before.at + 1 + log.input_delay);
    assert(due.contains(i));
    let k = choose|k: int| 0 <= k < due.len() && due[k] == i;
    assert(after.fed[before.fed.len() + k] == (log.entries@[i].peer, log.entries@[i].tick));
}

/// A run is capped, and it never goes back: what it has done is how far it has
/// come, and that is at most the cap.
pub proof fn law_a_run_is_capped(start: u64, max_ticks: u64, m: ShadowModel)
    requires
        m.at == start + m.done,
        m.at <= m.target,
        m.target <= start + max_ticks,
    ensures
        m.done <= max_ticks,
        start <= m.at,
        m.at < m.target ==> one_on(m).at == start + one_on(m).done && one_on(m).at <= m.target,
{
}

/// A shadow after `n` more ticks, each of which was run when it was asked for.
pub open spec fn ran(log: InputLog, m: ShadowModel, n: nat) -> ShadowModel
    decreases n,
{
    if n == 0 {
        m
    } else {
        let before = ran(log, m, (n - 1) as nat);
        one_on(
            ShadowModel {
                fed: before.fed + keys_at(
                    log.entries@,
                    fresh(log.entries@, before.fed, before.at + 1 + log.input_delay),
                ),
                running: true,
                ..before
            },
        )
    }
}

/// A run in which nothing stalls comes to its target tick by tick, with every
/// input handed over that is due by then. So two shadows of one log that have
/// come equally far have been handed the same inputs, and waiting for a late
/// input costs time and nothing else.
pub proof fn law_a_run_reaches_its_target(log: InputLog, m: ShadowModel, n: nat)
    requires
        m.done <= m.at,
        m.at + n <= m.target,
    ensures
        ran(log, m, n).at == m.at + n,
        ran(log, m, n).done == m.done + n,
        ran(log, m, n).target == m.target,
        forall|i: int|
            #![trigger log.entries@[i]]
            n > 0 && 0 <= i < log.entries@.len() && log.entries@[i].tick <= m.at + n
                + log.input_delay ==> ran(log, m, n).fed.contains(
                (log.entries@[i].peer, log.entries@[i].tick),
            ),
        forall|key: (u64, u64)|
            ran(log, m, n).fed.contains(key) ==> m.fed.contains(key) || (has_input(
                log.entries@,
                key.0,
                key.1,
            ) && key.1 <= m.at + n + log.input_delay),
    decreases n,
{
    if n > 0 {
        let p = (n - 1) as nat;
        law_a_run_reaches_its_target(log, m, p);
        let before = ran(log, m, p);
        let tick = before.at + 1 + log.input_delay;
        let due = fresh(log.entries@, before.fed, tick);
        let after = ran(log, m, n);
        lemma_fresh(log.entries@, before.fed, tick);
        assert forall|i: int|
            #![trigger log.entries@[i]]
            0 <= i < log.entries@.len() && log.entries@[i].tick <= tick implies after.fed.contains(
            (log.entries@[i].peer, log.entries@[i].tick),
        ) by {
            let key = (log.entries@[i].peer, log.entries@[i].tick);
            if before.fed.contains(key) {
                let k = choose|k: int| 0 <= k < before.fed.len() && before.fed[k] == key;
                assert(after.fed[k] == key);
            } else {
                assert(due.contains(i));
                let k = choose|k: int| 0 <= k < due.len() && due[k] == i;
                assert(after.fed[before.fed.len() + k] == key);
            }
        }
        assert forall|key: (u64, u64)| after.fed.contains(key) implies m.fed.contains(key) || (
        has_input(log.entries@, key.0, key.1) && key.1 <= tick) by {
            let k = choose|k: int| 0 <= k < after.fed.len() && after.fed[k] == key;
            if k < before.fed.len() {
                assert(before.fed[k] == key);
                assert(before.fed.contains(key));
            } else {
                let i = due[k - before.fed.len()];
                assert(log.entries@[i].peer == key.0 && log.entries@[i].tick == key.1);
            }
        }
    }
}

/// What a shadow asks of the simulation that it drives.
#[verifier::ext_equal]
pub enum Asked {
    /// These inputs are handed over, and then this tick is run.
    Run { tick: u64, feed: Seq<usize> },
    /// The run is over.
    Done { ticks: u64 },
}

/// What an action asks of the simulation.
pub open spec fn asked(a: ShadowAction) -> Asked {
    match a {
        ShadowAction::Run { tick, feed } => Asked::Run { tick, feed: feed@ },
        ShadowAction::Done { ticks } => Asked::Done { ticks },
    }
}

/// What a match starts from: whose it is, and what its randomness starts from.
#[verifier::ext_equal]
pub struct MatchStart {
    pub seed: u64,
    pub input_delay: u32,
    pub peers: Seq<u64>,
}

/// What the match of a log starts from.
pub open spec fn match_start(log: InputLog) -> MatchStart {
    MatchStart { seed: log.seed, input_delay: log.input_delay, peers: log.peers@ }
}

/// A simulation that a shadow drives: the state in which it starts, what becomes of
/// that when something is asked of it, and whether the tick could be run. It knows
/// nothing else: nothing is sampled, and the peer that it stands in for has no say.
#[verifier::reject_recursive_types(S)]
pub struct Simulation<S> {
    pub first: spec_fn(MatchStart) -> S,
    pub does: spec_fn(S, Asked) -> S,
    pub ran_it: spec_fn(S) -> bool,
}

/// A run from its start to its end: the shadow before and after each of its steps,
/// what it asked for, and the state of the simulation when it asked.
pub struct WholeRun<S> {
    pub shadows: Seq<ShadowModel>,
    pub actions: Seq<ShadowAction>,
    pub states: Seq<S>,
}

/// What a simulation answers.
pub open spec fn answer<S>(sim: Simulation<S>, state: S) -> ShadowEvent {
    if (sim.ran_it)(state) {
        ShadowEvent::Advanced
    } else {
        ShadowEvent::Stalled
    }
}

/// Is this the step `i` of a run, which begins with the simulation in the state
/// `init`?
pub open spec fn is_run_step<S>(
    log: InputLog,
    start: ShadowEvent,
    init: S,
    sim: Simulation<S>,
    run: WholeRun<S>,
    i: int,
) -> bool {
    if i == 0 {
        run.states[0] == init && is_advance(
            log,
            run.shadows[0],
            start,
            run.shadows[1],
            run.actions[0],
        )
    } else {
        &&& run.actions[i - 1] is Run
        &&& run.states[i] == (sim.does)(run.states[i - 1], asked(run.actions[i - 1]))
        &&& is_advance(
            log,
            run.shadows[i],
            answer(sim, run.states[i]),
            run.shadows[i + 1],
            run.actions[i],
        )
    }
}

/// Is this a run of the shadow `first`, begun by `start`, with the simulation that it
/// drives?
pub open spec fn is_whole_run<S>(
    log: InputLog,
    first: ShadowModel,
    start: ShadowEvent,
    init: S,
    sim: Simulation<S>,
    run: WholeRun<S>,
) -> bool {
    let n = run.actions.len() as int;
    &&& n > 0
    &&& run.shadows.len() == n + 1
    &&& run.states.len() == n
    &&& run.shadows[0] == first
    &&& forall|i: int| 0 <= i < n ==> #[trigger] is_run_step(log, start, init, sim, run, i)
    &&& run.actions[n - 1] is Done
}

/// Two runs agree as far as both go.
proof fn lemma_runs_agree<S>(
    log: InputLog,
    first: ShadowModel,
    start: ShadowEvent,
    init: S,
    sim: Simulation<S>,
    a: WholeRun<S>,
    b: WholeRun<S>,
    i: int,
)
    requires
        is_whole_run(log, first, start, init, sim, a),
        is_whole_run(log, first, start, init, sim, b),
        0 <= i < a.actions.len(),
        i < b.actions.len(),
    ensures
        a.shadows[i] == b.shadows[i],
        a.shadows[i + 1] == b.shadows[i + 1],
        a.states[i] == b.states[i],
        same_action(a.actions[i], b.actions[i]),
    decreases i,
{
    assert(is_run_step(log, start, init, sim, a, i));
    assert(is_run_step(log, start, init, sim, b, i));
    if i > 0 {
        lemma_runs_agree(log, first, start, init, sim, a, b, i - 1);
        assert(asked(a.actions[i - 1]) =~= asked(b.actions[i - 1]));
    }
    law_a_match_is_run_again_as_it_was(
        log,
        a.shadows[i],
        if i == 0 {
            start
        } else {
            answer(sim, a.states[i])
        },
        a.shadows[i + 1],
        a.actions[i],
        b.shadows[i + 1],
        b.actions[i],
    );
}

/// Two shadows of one log that have come equally far, each with a simulation of its
/// own in the same state, run on alike: they ask for the same at each step, and the
/// simulations go through the same states. That holds of every stopping rule and
/// every cap, where a tick stalls too, and whichever peer each of the two stands in
/// for.
pub proof fn law_two_shadows_run_on_alike<S>(
    host: ShadowSim,
    joiner: ShadowSim,
    start: ShadowEvent,
    init: S,
    sim: Simulation<S>,
    a: WholeRun<S>,
    b: WholeRun<S>,
)
    requires
        host.log == joiner.log,
        host@ == joiner@,
        is_whole_run(host.log, host@, start, init, sim, a),
        is_whole_run(joiner.log, joiner@, start, init, sim, b),
    ensures
        a.actions.len() == b.actions.len(),
        a.shadows == b.shadows,
        a.states == b.states,
        forall|i: int|
            0 <= i < a.actions.len() ==> same_action(#[trigger] a.actions[i], b.actions[i]),
{
    let log = host.log;
    let first = host@;
    let n = if a.actions.len() <= b.actions.len() {
        a.actions.len() as int
    } else {
        b.actions.len() as int
    };
    assert forall|i: int| 0 <= i < n implies a.shadows[i] == b.shadows[i] && a.shadows[i + 1]
        == b.shadows[i + 1] && a.states[i] == b.states[i] && same_action(
        #[trigger] a.actions[i],
        b.actions[i],
    ) by {
        lemma_runs_agree(log, first, start, init, sim, a, b, i);
    }
    lemma_runs_agree(log, first, start, init, sim, a, b, n - 1);
    if n < a.actions.len() {
        assert(is_run_step(log, start, init, sim, a, n));
    }
    if n < b.actions.len() {
        assert(is_run_step(log, start, init, sim, b, n));
    }
    assert forall|i: int| 0 <= i < a.shadows.len() implies a.shadows[i] == b.shadows[i] by {
        if i < n {
            assert(same_action(a.actions[i], b.actions[i]));
        }
    }
    assert(a.shadows =~= b.shadows);
    assert forall|i: int| 0 <= i < a.states.len() implies a.states[i] == b.states[i] by {
        assert(same_action(a.actions[i], b.actions[i]));
    }
    assert(a.states =~= b.states);
}

/// Where a run stops in which no tick stalls: at the horizon, or at the cap.
pub open spec fn stops_at(at: u64, h: u64, max_ticks: u64) -> int {
    if h <= at + max_ticks {
        h as int
    } else {
        at + max_ticks
    }
}

/// Does nothing but a missing input stop the simulation in this run: is each tick run
/// for which every peer's input is there?
pub open spec fn waits_for_inputs_only<S>(
    log: InputLog,
    sim: Simulation<S>,
    run: WholeRun<S>,
) -> bool {
    forall|i: int|
        #![trigger run.actions[i]]
        0 <= i < run.actions.len() - 1 ==> (run.actions[i] matches ShadowAction::Run { tick, .. }
            && log.complete(tick) ==> (sim.ran_it)(run.states[i + 1]))
}

/// Is there an input of every peer for each tick after `at`, as far as the log goes?
pub open spec fn is_complete_after(log: InputLog, at: u64) -> bool {
    forall|t: u64| at < t <= newest(log.entries@) ==> #[trigger] log.complete(t)
}

/// Has every input for a tick up to `tick` been handed over?
pub open spec fn all_fed(log: InputLog, m: ShadowModel, tick: int) -> bool {
    forall|i: int|
        #![trigger log.entries@[i]]
        0 <= i < log.entries@.len() && log.entries@[i].tick <= tick ==> m.fed.contains(
            (log.entries@[i].peer, log.entries@[i].tick),
        )
}

/// How far a run has come after each of its steps.
proof fn lemma_run_goes_on<S>(
    log: InputLog,
    first: ShadowModel,
    max_ticks: u64,
    init: S,
    sim: Simulation<S>,
    run: WholeRun<S>,
    i: int,
)
    requires
        is_whole_run(
            log,
            first,
            (ShadowEvent::Start { rule: Horizon::WholeLog, max_ticks }),
            init,
            sim,
            run,
        ),
        waits_for_inputs_only(log, sim, run),
        is_complete_after(log, first.at),
        0 <= i < run.actions.len(),
    ensures
        run.shadows[i + 1].at == first.at + i,
        run.shadows[i + 1].done == i,
        run.shadows[i + 1].target == stops_at(first.at, newest(log.entries@), max_ticks),
        run.actions[i] is Run <==> run.shadows[i + 1].at < run.shadows[i + 1].target,
        run.shadows[i + 1].running == (run.actions[i] is Run),
        i > 0 ==> first.at + i <= stops_at(first.at, newest(log.entries@), max_ticks),
        run.actions[i] matches ShadowAction::Run { tick, .. } ==> tick == first.at + i + 1
            && all_fed(log, run.shadows[i + 1], tick + log.input_delay),
        run.actions[i] matches ShadowAction::Done { ticks } ==> ticks == i && (i > 0 ==> all_fed(
            log,
            run.shadows[i + 1],
            first.at + i + log.input_delay,
        )),
    decreases i,
{
    let start = ShadowEvent::Start { rule: Horizon::WholeLog, max_ticks };
    let h = newest(log.entries@);
    assert(is_run_step(log, start, init, sim, run, i));
    if i == 0 {
        let (g, t) = choose|g: u64, target: u64|
            {
                &&& #[trigger] is_horizon(log, first.at, Horizon::WholeLog, g)
                &&& target == if g <= first.at + max_ticks {
                    g as int
                } else {
                    first.at + max_ticks
                }
                &&& #[trigger] asks(log, started(first, target), run.shadows[1], run.actions[0])
            };
        lemma_asking_feeds(log, started(first, t), run.shadows[1], run.actions[0]);
    } else {
        lemma_run_goes_on(log, first, max_ticks, init, sim, run, i - 1);
        let tick = run.actions[i - 1]->tick;
        assert(log.complete(tick));
        assert((sim.ran_it)(run.states[i]));
        lemma_asking_feeds(log, one_on(run.shadows[i]), run.shadows[i + 1], run.actions[i]);
    }
}

/// What is asked for comes with every input that is due.
proof fn lemma_asking_feeds(
    log: InputLog,
    before: ShadowModel,
    after: ShadowModel,
    action: ShadowAction,
)
    requires
        asks(log, before, after, action),
    ensures
        action is Run ==> all_fed(log, after, before.at + 1 + log.input_delay),
{
    if action is Run {
        assert forall|i: int|
            #![trigger log.entries@[i]]
            0 <= i < log.entries@.len() && log.entries@[i].tick <= before.at + 1
                + log.input_delay implies after.fed.contains(
            (log.entries@[i].peer, log.entries@[i].tick),
        ) by {
            let key = (log.entries@[i].peer, log.entries@[i].tick);
            if before.fed.contains(key) {
                let k = choose|k: int| 0 <= k < before.fed.len() && before.fed[k] == key;
                assert(after.fed[k] == key);
            } else {
                law_a_late_input_is_fed(log, before, after, action, i);
            }
        }
    }
}

/// A replay of a complete log comes to the end of it, where the cap lets it: it runs
/// every tick after the one that it starts from, each once and in turn, with every
/// input handed over that is due, and after that its tick is the newest of the log.
/// Nothing more is asked of the simulation than that it runs a tick for which every
/// peer's input is there.
pub proof fn law_a_replay_reaches_the_end<S>(
    shadow: ShadowSim,
    max_ticks: u64,
    init: S,
    sim: Simulation<S>,
    run: WholeRun<S>,
)
    requires
        is_whole_run(
            shadow.log,
            shadow@,
            (ShadowEvent::Start { rule: Horizon::WholeLog, max_ticks }),
            init,
            sim,
            run,
        ),
        waits_for_inputs_only(shadow.log, sim, run),
        is_complete_after(shadow.log, shadow@.at),
        shadow@.at <= newest(shadow.log.entries@),
    ensures
        run.shadows.last().at == stops_at(
            shadow@.at,
            newest(shadow.log.entries@),
            max_ticks,
        ),
        newest(shadow.log.entries@) <= shadow@.at + max_ticks ==> run.shadows.last().at == newest(
            shadow.log.entries@,
        ),
        run.actions.last() matches ShadowAction::Done { ticks } && ticks
            == run.shadows.last().at - shadow@.at,
        forall|i: int|
            #![trigger run.actions[i]]
            0 <= i < run.actions.len() - 1 ==> (run.actions[i] matches ShadowAction::Run {
                tick,
                ..
            } && tick == shadow@.at + i + 1 && all_fed(
                shadow.log,
                run.shadows[i + 1],
                tick + shadow.log.input_delay,
            )),
        run.shadows.last().at > shadow@.at ==> all_fed(
            shadow.log,
            run.shadows.last(),
            run.shadows.last().at + shadow.log.input_delay,
        ),
{
    let n = run.actions.len() as int;
    let start = ShadowEvent::Start { rule: Horizon::WholeLog, max_ticks };
    lemma_run_goes_on(shadow.log, shadow@, max_ticks, init, sim, run, n - 1);
    assert forall|i: int|
        #![trigger run.actions[i]]
        0 <= i < run.actions.len() - 1 implies (run.actions[i] matches ShadowAction::Run {
        tick,
        ..
    } && tick == shadow@.at + i + 1 && all_fed(
        shadow.log,
        run.shadows[i + 1],
        tick + shadow.log.input_delay,
    )) by {
        assert(is_run_step(shadow.log, start, init, sim, run, i + 1));
        lemma_run_goes_on(shadow.log, shadow@, max_ticks, init, sim, run, i);
    }
}

/// A shadow that was built and has simulated nothing.
pub open spec fn is_built(shadow: ShadowSim, log: InputLog, local: u64) -> bool {
    &&& shadow.log == log
    &&& shadow.local == local
    &&& shadow@ == (ShadowModel { at: 0, fed: seq![], target: 0, done: 0, running: false })
}

/// The inputs and the seed are the match, and whose seat it is run from does not
/// matter: two shadows that are built from one complete log, each in the seat of any
/// of its peers, and that are run over the whole of it, come to the newest tick of the
/// log. On the way they have asked for the same, and their simulations have gone
/// through the same states.
pub proof fn law_the_seat_does_not_change_the_match<S>(
    log: InputLog,
    host: ShadowSim,
    joiner: ShadowSim,
    max_ticks: u64,
    sim: Simulation<S>,
    a: WholeRun<S>,
    b: WholeRun<S>,
)
    requires
        is_built(host, log, host.local),
        is_built(joiner, log, joiner.local),
        log.peers@.contains(host.local),
        log.peers@.contains(joiner.local),
        is_complete_after(log, 0),
        newest(log.entries@) <= max_ticks,
        is_whole_run(
            log,
            host@,
            (ShadowEvent::Start { rule: Horizon::WholeLog, max_ticks }),
            (sim.first)(match_start(host.log)),
            sim,
            a,
        ),
        is_whole_run(
            log,
            joiner@,
            (ShadowEvent::Start { rule: Horizon::WholeLog, max_ticks }),
            (sim.first)(match_start(joiner.log)),
            sim,
            b,
        ),
        waits_for_inputs_only(log, sim, a),
    ensures
        a.shadows.last().at == newest(log.entries@),
        b.shadows.last().at == newest(log.entries@),
        a.states == b.states,
        a.shadows == b.shadows,
        a.actions.len() == b.actions.len(),
        forall|i: int|
            0 <= i < a.actions.len() ==> same_action(#[trigger] a.actions[i], b.actions[i]),
{
    let start = ShadowEvent::Start { rule: Horizon::WholeLog, max_ticks };
    let init = (sim.first)(match_start(log));
    law_two_shadows_run_on_alike(host, joiner, start, init, sim, a, b);
    law_a_replay_reaches_the_end(host, max_ticks, init, sim, a);
}

// ---- replays ---------------------------------------------------------------

/// Where a project keeps its replays.
pub fn replay_dir(project_root: &str) -> (out: String)
    ensures
        out@ == path_below(project_root@, "replays"@),
{
    join_path(project_root, "replays")
}

/// How many replays a list shows.
pub const REPLAYS_SHOWN: usize = 12;

/// Is this path that of a replay?
pub open spec fn is_replay(path: Seq<char>) -> bool {
    extension_in(path) == Some("floptlereplay"@) && stem_in(path) is Some
}

/// The replays among the files at `paths`: the name and the path of each.
pub open spec fn replays_among(paths: Seq<Seq<char>>) -> Seq<(Seq<char>, Seq<char>)>
    decreases paths.len(),
{
    if paths.len() == 0 {
        seq![]
    } else {
        let front = replays_among(paths.drop_last());
        if is_replay(paths.last()) {
            front.push((stem_in(paths.last())->Some_0, paths.last()))
        } else {
            front
        }
    }
}

/// A replay, which ranks by its name: a later name comes first.
struct Recorded {
    name: String,
    path: String,
}

impl Ranked for Recorded {
    closed spec fn ranks_before(&self, other: &Self) -> bool {
        text_before(other.name@, self.name@)
    }

    proof fn ranking(a: &Self, b: &Self, c: &Self) {
        crate::order::lemma_text_order(b.name@, a.name@, c.name@);
        crate::order::lemma_text_order(c.name@, b.name@, a.name@);
        crate::order::lemma_text_order(a.name@, b.name@, c.name@);
    }

    fn is_before(&self, other: &Self) -> (out: bool) {
        crate::text::before(
            crate::text::chars_of(other.name.as_str()).as_slice(),
            crate::text::chars_of(self.name.as_str()).as_slice(),
        )
    }
}

/// Does place `p` of a list of replays come before place `q`: by a later name,
/// or under one name by standing earlier?
pub open spec fn newer_name(list: Seq<(Seq<char>, Seq<char>)>, p: int, q: int) -> bool {
    text_before(list[q].0, list[p].0) || (!text_before(list[p].0, list[q].0) && p < q)
}

/// The texts of pairs of strings.
pub open spec fn pairs(v: Seq<(String, String)>) -> Seq<(Seq<char>, Seq<char>)> {
    v.map_values(|p: (String, String)| (p.0@, p.1@))
}

/// Are these the replays that a list of all of them shows, once its places are
/// put in order: the last name first, and no more than are shown?
pub open spec fn lists_newest(
    all: Seq<(Seq<char>, Seq<char>)>,
    places: Seq<usize>,
    shown: Seq<(Seq<char>, Seq<char>)>,
) -> bool {
    &&& are_places(places, all.len())
    &&& forall|i: int, j: int|
        0 <= i < j < places.len() ==> newer_name(
            all,
            (#[trigger] places[i]) as int,
            (#[trigger] places[j]) as int,
        )
    &&& shown.len() == if all.len() < REPLAYS_SHOWN {
        all.len()
    } else {
        REPLAYS_SHOWN as nat
    }
    &&& forall|i: int| 0 <= i < shown.len() ==> #[trigger] shown[i] == all[places[i] as int]
}

/// The replays among the files of a directory, the last name first, and no more
/// of them than are shown.
pub fn list_replays(files: &Vec<String>) -> (out: Vec<(String, String)>)
    ensures
        exists|places: Seq<usize>| #[trigger]
            lists_newest(replays_among(crate::text::texts(files@)), places, pairs(out@)),
{
    let mut found: Vec<Recorded> = Vec::new();
    let ghost files_text = crate::text::texts(files@);
    let ghost mut all: Seq<(Seq<char>, Seq<char>)> = seq![];
    let mut i: usize = 0;
    while i < files.len()
        invariant
            i <= files.len(),
            files_text == crate::text::texts(files@),
            all == replays_among(files_text.take(i as int)),
            found@.len() == all.len(),
            forall|k: int|
                0 <= k < found@.len() ==> (#[trigger] found@[k]).name@ == all[k].0
                    && found@[k].path@ == all[k].1,
        decreases files.len() - i,
    {
        let path: &str = files[i].as_str();
        assert(files_text.take(i + 1).drop_last() =~= files_text.take(i as int));
        assert(files_text.take(i + 1).last() == path@);
        let right: bool = match extension(path) {
            Some(ext) => same_text(ext.as_str(), "floptlereplay"),
            None => false,
        };
        if right {
            match file_stem(path) {
                Some(stem) => {
                    found.push(Recorded { name: stem, path: copy_of(path) });
                },
                None => {},
            }
        }
        proof {
            all = replays_among(files_text.take(i + 1));
        }
        i += 1;
    }
    assert(files_text.take(i as int) =~= files_text);
    let order: Vec<usize> = sorted_places(&found);
    let shown: usize = if order.len() < REPLAYS_SHOWN {
        order.len()
    } else {
        REPLAYS_SHOWN
    };
    let mut out: Vec<(String, String)> = Vec::new();
    let mut k: usize = 0;
    while k < shown
        invariant
            k <= shown <= order.len(),
            are_places(order@, all.len()),
            found@.len() == all.len(),
            forall|p: int|
                0 <= p < found@.len() ==> (#[trigger] found@[p]).name@ == all[p].0
                    && found@[p].path@ == all[p].1,
            out@.len() == k,
            forall|p: int| 0 <= p < k ==> #[trigger] pairs(out@)[p] == all[order@[p] as int],
        decreases shown - k,
    {
        let r: &Recorded = &found[order[k]];
        let ghost was = out@;
        out.push((r.name.clone(), r.path.clone()));
        assert forall|p: int| 0 <= p < k + 1 implies #[trigger] pairs(out@)[p]
            == all[order@[p] as int] by {
            if p < k {
                assert(pairs(was)[p] == all[order@[p] as int]);
            }
        }
        k += 1;
    }
    proof {
        assert forall|a: int, b: int| 0 <= a < b < order@.len() implies newer_name(
            all,
            (#[trigger] order@[a]) as int,
            (#[trigger] order@[b]) as int,
        ) by {
            assert(comes_first(found@, order@[a] as int, order@[b] as int));
        }
        assert(lists_newest(all, order@, pairs(out@)));
    }
    out
}

/// How a node takes part in a networked match.
#[derive(Clone, Copy, Debug, PartialEq, Eq)]
pub struct NetDoc {
    /// Is it simulated by rollback?
    pub rollback: bool,
}

/// What a scene says of one node.
#[derive(Clone, Copy, Debug, PartialEq, Eq)]
pub struct NodeDoc {
    pub net: Option<NetDoc>,
}

/// A scene.
pub struct SceneDoc {
    pub nodes: Vec<NodeDoc>,
}

/// Is this node simulated by rollback?
pub open spec fn is_rolled_back(node: NodeDoc) -> bool {
    node.net matches Some(net) && net.rollback
}

/// Does the scene simulate anything by rollback?
pub fn scene_has_rollback(doc: &SceneDoc) -> (out: bool)
    ensures
        out == exists|i: int|
            0 <= i < doc.nodes@.len() && is_rolled_back(#[trigger] doc.nodes@[i]),
{
    let mut i: usize = 0;
    while i < doc.nodes.len()
        invariant
            i <= doc.nodes.len(),
            forall|j: int| 0 <= j < i ==> !is_rolled_back(#[trigger] doc.nodes@[j]),
        decreases doc.nodes.len() - i,
    {
        if let Some(net) = doc.nodes[i].net {
            if net.rollback {
                assert(is_rolled_back(doc.nodes@[i as int]));
                return true;
            }
        }
        i += 1;
    }
    false
}

/// The newest tick is that of some input, and no input is newer; a log without inputs has none.
pub proof fn law_the_newest_is_that_of_an_input(entries: Seq<LogEntry>, i: int)
    requires
        0 <= i < entries.len(),
    ensures
        entries[i].tick <= newest(entries),
        exists|k: int|
            #![trigger entries[k]]
            0 <= k < entries.len() && entries[k].tick == newest(entries),
        newest(Seq::empty()) == 0,
    decreases entries.len(),
{
    let less = entries.drop_last();
    let last = entries.len() - 1;
    assert(entries[last] == entries.last());
    if less.len() > 0 {
        let j = if i < last {
            i
        } else {
            0
        };
        law_the_newest_is_that_of_an_input(less, j);
        let k = choose|k: int|
            #![trigger less[k]]
            0 <= k < less.len() && less[k].tick == newest(less);
        assert(less[k] == entries[k]);
        assert(i < last ==> less[i] == entries[i]);
    } else {
        assert(newest(less) == 0);
        assert(entries[0].tick == newest(entries));
    }
}

/// A tick is complete exactly where nobody is missing: without a peer's input it is not.
pub proof fn law_a_missing_input_leaves_a_tick_open(log: InputLog, tick: u64, k: int)
    requires
        0 <= k < log.peers@.len(),
        forall|i: int|
            #![trigger log.entries@[i]]
            0 <= i < log.entries@.len() ==> log.entries@[i].peer != log.peers@[k]
                || log.entries@[i].tick != tick,
    ensures
        !log.complete(tick),
{
    assert(!has_input(log.entries@, log.peers@[k], tick));
}

/// A run begins with nothing done, at the tick at which the shadow stands, and is to go no
/// further than its rule and its cap allow; where both allow a tick, that tick is asked for.
pub proof fn law_a_run_begins_where_the_shadow_stands(
    log: InputLog,
    before: ShadowModel,
    rule: Horizon,
    max_ticks: u64,
    h: u64,
    after: ShadowModel,
    action: ShadowAction,
)
    requires
        is_advance(log, before, ShadowEvent::Start { rule, max_ticks }, after, action),
        is_horizon(log, before.at, rule, h),
    ensures
        after.at == before.at,
        after.done == 0,
        after.target <= h,
        after.target <= before.at + max_ticks,
        after.target == h || after.target == before.at + max_ticks,
        after.running == (before.at < h && max_ticks > 0),
        after.running ==> (action matches ShadowAction::Run { tick, .. } && tick == before.at + 1),
        !after.running ==> action == (ShadowAction::Done { ticks: 0 }),
{
    let (g, target) = choose|g: u64, target: u64|
        {
            &&& #[trigger] is_horizon(log, before.at, rule, g)
            &&& target == if g <= before.at + max_ticks {
                g as int
            } else {
                before.at + max_ticks
            }
            &&& #[trigger] asks(log, started(before, target), after, action)
        };
    law_the_horizon_is_unique(log, before.at, rule, g, h);
}

/// A tick that was run counts once and takes the shadow one tick on; one that stalled takes it
/// nowhere and ends the run; an answer that nobody asked for changes nothing. What was handed
/// over is never taken back.
pub proof fn law_a_tick_counts_once(
    log: InputLog,
    before: ShadowModel,
    event: ShadowEvent,
    after: ShadowModel,
    action: ShadowAction,
)
    requires
        is_advance(log, before, event, after, action),
        before.done <= before.at,
        before.running ==> before.at < before.target,
    ensures
        event is Advanced && before.running ==> after.at == before.at + 1 && after.done
            == before.done + 1 && after.target == before.target && after.running == (before.at + 1
            < before.target),
        event is Advanced && !before.running ==> after == before,
        event is Stalled ==> after.at == before.at && after.done == before.done && after.fed
            == before.fed && !after.running,
        action matches ShadowAction::Done { ticks } ==> ticks == after.done && after.fed
            == before.fed,
        action matches ShadowAction::Run { tick, .. } ==> tick == after.at + 1 && after.running,
        after.fed.take(before.fed.len() as int) == before.fed,
{
    assert(after.fed.take(before.fed.len() as int) =~= before.fed);
}

/// A match is run again from the seed, the delay and the peers that its log holds, in the seat
/// that the shadow has.
pub proof fn law_a_match_starts_from_its_log(s: &ShadowSim, out: DriverStart)
    requires
        call_ensures(ShadowSim::driver_start, (s,), out),
    ensures
        out.seed == s.log.seed,
        out.input_delay == s.log.input_delay,
        out.peers@ == s.log.peers@,
        out.local == s.local,
{
}

/// Every replay that is listed is one of the files, under its own name.
proof fn lemma_replays_are_files(paths: Seq<Seq<char>>, k: int)
    requires
        0 <= k < replays_among(paths).len(),
    ensures
        ({
            let r = replays_among(paths)[k];
            paths.contains(r.1) && is_replay(r.1) && stem_in(r.1) == Some(r.0)
        }),
    decreases paths.len(),
{
    let less = paths.drop_last();
    let front = replays_among(less);
    if k < front.len() {
        lemma_replays_are_files(less, k);
        let r = front[k];
        let at = choose|at: int| 0 <= at < less.len() && less[at] == r.1;
        assert(paths[at] == r.1);
    } else {
        assert(paths[paths.len() - 1] == paths.last());
    }
}

/// Every replay among the files is among those that a list is made of.
proof fn lemma_every_replay_is_found(paths: Seq<Seq<char>>, i: int) -> (k: int)
    requires
        0 <= i < paths.len(),
        is_replay(paths[i]),
    ensures
        0 <= k < replays_among(paths).len(),
        replays_among(paths)[k].1 == paths[i],
    decreases paths.len(),
{
    let less = paths.drop_last();
    if i < paths.len() - 1 {
        lemma_every_replay_is_found(less, i)
    } else {
        replays_among(less).len() as int
    }
}

/// A list of replays shows files that are replays, each under its name, the last name first and
/// no more than it has room for; one is left out only where there is no room for it.
pub proof fn law_a_list_shows_the_last_replays(
    files: Seq<Seq<char>>,
    places: Seq<usize>,
    shown: Seq<(Seq<char>, Seq<char>)>,
    i: int,
    j: int,
    f: int,
)
    requires
        lists_newest(replays_among(files), places, shown),
        0 <= i < j < shown.len(),
        0 <= f < files.len(),
    ensures
        shown.len() <= REPLAYS_SHOWN,
        files.contains(shown[i].1) && extension_in(shown[i].1) == Some("floptlereplay"@) && stem_in(
            shown[i].1,
        ) == Some(shown[i].0),
        !text_before(shown[i].0, shown[j].0),
        is_replay(files[f]) && shown.len() < REPLAYS_SHOWN ==> exists|k: int|
            0 <= k < shown.len() && (#[trigger] shown[k]).1 == files[f],
{
    let all = replays_among(files);
    lemma_replays_are_files(files, places[i] as int);
    assert(shown[i] == all[places[i] as int]);
    assert(shown[j] == all[places[j] as int]);
    assert(newer_name(all, places[i] as int, places[j] as int));
    crate::text::law_texts_are_in_order(shown[i].0, shown[j].0);
    if is_replay(files[f]) && shown.len() < REPLAYS_SHOWN {
        let p = lemma_every_replay_is_found(files, f);
        let at = lemma_places_are_all(places, all.len(), p);
        assert(shown[at] == all[places[at] as int]);
    }
}

/// As many different places as there are leave none out.
proof fn lemma_places_are_all(places: Seq<usize>, n: nat, p: int) -> (at: int)
    requires
        are_places(places, n),
        0 <= p < n,
    ensures
        0 <= at < n,
        places[at] == p,
{
    let s = places.map_values(|x: usize| x as int);
    assert(s.no_duplicates()) by {
        assert forall|i: int, j: int| 0 <= i < s.len() && 0 <= j < s.len() && i != j implies s[i]
            != s[j] by {
            assert(places[i] != places[j]);
        }
    }
    s.unique_seq_to_set();
    let all = vstd::set_lib::set_int_range(0, n as int);
    vstd::set_lib::lemma_int_range(0, n as int);
    assert(s.to_set().subset_of(all)) by {
        assert forall|x: int| s.to_set().contains(x) implies all.contains(x) by {
            let i = choose|i: int| 0 <= i < s.len() && s[i] == x;
            assert(0 <= places[i] < n);
        }
    }
    vstd::set_lib::lemma_subset_equality(s.to_set(), all);
    assert(s.to_set().contains(p));
    let at = choose|at: int| 0 <= at < s.len() && s[at] == p;
    assert(places[at] == p);
    at
}

/// A node is simulated by rollback exactly where it is in the network and says so.
pub proof fn law_a_node_says_that_it_is_rolled_back(node: NodeDoc)
    ensures
        is_rolled_back(node) <==> node.net is Some && node.net->Some_0.rollback,
{
}

} // verus!
