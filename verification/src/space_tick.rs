//! What becomes of one moving body in a tick: it is carried along with the body
//! that it belongs to, or it coasts on a conic from crossing to crossing. This is
//! the order of it; where things are, and when a crossing is, comes from outside.

use crate::script_actions::line_model;
use crate::space::{
    dominant, entered, flight_step, is_dominant, is_entry, is_flying, is_nowhere, left, seam_from,
    settled_key, streaming, too_low, CelestialNode, CoastWalk, Crossing, Entry, Flight, FlightStep, Rails,
    Settled, Sphere, MAX_HOPS,
};
use crate::system_gen::LogLine;
use vstd::prelude::*;

verus! {

/// How far the tick of a body is.
#[derive(Clone, Copy, Debug, PartialEq, Eq, Structural)]
pub enum BodyPhase {
    /// It is not known yet where the body is.
    Start,
    /// Its frame is known, and how it flies is not.
    Flying,
    /// It coasts, and where its conic ends is looked for.
    Walking,
    /// A crossing on the way is looked for.
    Crossing,
    /// Its last conic is known, and how low it is there is not.
    Settling,
    Over,
}

/// The tick of a body.
#[derive(Clone, Copy, Debug, PartialEq, Eq, Structural)]
pub struct BodyTick {
    /// The number of its node.
    pub eid: u64,
    /// Is time warped?
    pub warping: bool,
    pub phase: BodyPhase,
    /// The celestial body that it belongs to.
    pub dom: usize,
    pub walk: CoastWalk,
}

/// What was found out.
pub enum BodyEvent {
    /// The spheres of influence as the body sees them, where all of them were
    /// before this tick.
    Seen(Vec<Sphere>),
    /// How it flies, once a seam has changed its velocity.
    Flies(Flight),
    /// The celestial body in whose sphere its conic ends this tick.
    EndsIn(usize),
    /// The celestial body on the other side of the crossing.
    CrossesInto(usize),
    /// Where it ends: is the terrain there cold, does it close in on it, and is it
    /// low?
    Ends { cold: bool, closing: bool, low: bool },
}

/// What is done next.
pub enum BodyAction {
    /// The event was not one of this phase.
    Nothing,
    /// It belongs nowhere: it is left alone.
    Leave,
    /// A seam changes its velocity and is told of. How it flies is found out.
    Look { entry: Entry },
    /// It moves along with this celestial body.
    Carry { dom: usize },
    /// Its conic in this frame is followed to the end of the tick. Where `capture`
    /// is set it is taken from how the body moves now.
    Follow { frame: usize, capture: bool },
    /// The crossing out of this frame is found.
    FindCrossing { frame: usize },
    /// A conic in the frame `to` is taken at the crossing, and followed.
    Handoff { to: usize, line: LogLine },
    /// It is found out where it ends.
    Measure { frame: usize },
    /// It is put where its conic in this frame says.
    Place { frame: usize },
    /// Time runs as it does again, and the body is left to physics.
    Drop { line: LogLine },
}

/// A tick over the bodies `nodes`.
pub open spec fn tick_wf(t: BodyTick, nodes: Seq<CelestialNode>) -> bool {
    let coasts = t.phase == BodyPhase::Walking || t.phase == BodyPhase::Crossing || t.phase
        == BodyPhase::Settling;
    &&& (t.phase == BodyPhase::Flying || coasts) ==> t.dom < nodes.len()
    &&& coasts ==> t.warping && t.walk.frame < nodes.len()
    &&& t.walk.hops <= MAX_HOPS
}

/// Does the event speak of bodies that are there?
pub open spec fn event_fits(e: BodyEvent, nodes: Seq<CelestialNode>) -> bool {
    match e {
        BodyEvent::Seen(spheres) => spheres@.len() == nodes.len(),
        BodyEvent::CrossesInto(to) => to < nodes.len(),
        _ => true,
    }
}

/// What the rails remember: the frames and the coasts.
#[verifier::ext_equal]
pub struct RailsModel {
    pub frames: Map<u64, u64>,
    pub coasts: Map<u64, u64>,
}

/// What the rails remember.
pub open spec fn rails_model(r: Rails) -> RailsModel {
    RailsModel { frames: r.frames@, coasts: r.coasts@ }
}

/// The body was found in a frame.
pub open spec fn is_look(
    nodes: Seq<CelestialNode>,
    r: RailsModel,
    t: BodyTick,
    spheres: Seq<Sphere>,
    r2: RailsModel,
    t2: BodyTick,
    action: BodyAction,
) -> bool {
    if is_nowhere(spheres) {
        r2 == r && t2 == (BodyTick { phase: BodyPhase::Over, ..t }) && action is Leave
    } else {
        &&& is_dominant(spheres, t2.dom as int)
        &&& t2 == (BodyTick { phase: BodyPhase::Flying, dom: t2.dom, ..t })
        &&& r2.coasts == r.coasts
        &&& action matches BodyAction::Look { entry } && if t.warping && r.coasts.contains_key(
            t.eid,
        ) {
            entry is Stay && r2.frames == r.frames
        } else {
            &&& r2.frames == r.frames.insert(t.eid, nodes[t2.dom as int].key)
            &&& is_entry(
                entry,
                nodes,
                t2.dom as int,
                seam_from(nodes, r.frames, t.eid, t2.dom as int),
            )
        }
    }
}

/// It is known how the body flies.
pub open spec fn is_flight(
    nodes: Seq<CelestialNode>,
    r: RailsModel,
    t: BodyTick,
    flight: Flight,
    r2: RailsModel,
    t2: BodyTick,
    action: BodyAction,
) -> bool {
    match flight_step(nodes, r.coasts, t.eid, t.dom, is_flying(t.warping, flight)) {
        FlightStep::Coast { frame, capture } => {
            &&& r2 == (RailsModel {
                coasts: if capture {
                    r.coasts.insert(t.eid, nodes[t.dom as int].key)
                } else {
                    r.coasts
                },
                ..r
            })
            &&& t2 == (BodyTick {
                phase: BodyPhase::Walking,
                walk: CoastWalk { frame, hops: 0, crossed: false },
                ..t
            })
            &&& action == (BodyAction::Follow { frame, capture })
        },
        FlightStep::Carry => {
            &&& r2 == (RailsModel { coasts: r.coasts.remove(t.eid), ..r })
            &&& t2 == (BodyTick { phase: BodyPhase::Over, ..t })
            &&& action == (BodyAction::Carry { dom: t.dom })
        },
    }
}

/// The crossing was found.
pub open spec fn is_crossing(
    nodes: Seq<CelestialNode>,
    parents: Seq<Option<usize>>,
    t: BodyTick,
    to: usize,
    t2: BodyTick,
    action: BodyAction,
) -> bool {
    if to == t.walk.frame || !nodes[to as int].heavy {
        t2 == (BodyTick { phase: BodyPhase::Settling, ..t }) && action == (BodyAction::Measure {
            frame: t.walk.frame,
        })
    } else {
        &&& t2 == (BodyTick {
            phase: BodyPhase::Walking,
            walk: CoastWalk { frame: to, crossed: true, ..t.walk },
            ..t
        })
        &&& action matches BodyAction::Handoff { to: n, line } && n == to && line_model(line)
            == if parents[to as int] == Some(t.walk.frame) {
            entered(nodes[to as int].name@)
        } else {
            left(nodes[t.walk.frame as int].name@)
        }
    }
}

/// It is known where the body ends.
pub open spec fn is_end(
    nodes: Seq<CelestialNode>,
    r: RailsModel,
    t: BodyTick,
    cold: bool,
    closing: bool,
    low: bool,
    r2: RailsModel,
    t2: BodyTick,
    action: BodyAction,
) -> bool {
    let key = settled_key(nodes, r.coasts, t.eid, t.walk.frame as int, t.walk.crossed);
    &&& t2 == (BodyTick { phase: BodyPhase::Over, ..t })
    &&& r2.frames == r.frames.insert(t.eid, key)
    &&& if cold && closing {
        r2.coasts == r.coasts.remove(t.eid) && (action matches BodyAction::Drop { line }
            && line_model(line) == streaming(nodes[t.walk.frame as int].name@))
    } else if low {
        r2.coasts == r.coasts.remove(t.eid) && (action matches BodyAction::Drop { line }
            && line_model(line) == too_low())
    } else {
        r2.coasts == r.coasts.insert(t.eid, key) && action == (BodyAction::Place {
            frame: t.walk.frame,
        })
    }
}

/// Is this the step that the tick of a body makes?
pub open spec fn is_body_step(
    nodes: Seq<CelestialNode>,
    parents: Seq<Option<usize>>,
    r: RailsModel,
    t: BodyTick,
    event: BodyEvent,
    r2: RailsModel,
    t2: BodyTick,
    action: BodyAction,
) -> bool {
    match (t.phase, event) {
        (BodyPhase::Start, BodyEvent::Seen(spheres)) => is_look(
            nodes,
            r,
            t,
            spheres@,
            r2,
            t2,
            action,
        ),
        (BodyPhase::Flying, BodyEvent::Flies(flight)) => is_flight(
            nodes,
            r,
            t,
            flight,
            r2,
            t2,
            action,
        ),
        (BodyPhase::Walking, BodyEvent::EndsIn(end)) => r2 == r && if end != t.walk.frame
            && t.walk.hops < MAX_HOPS {
            t2 == (BodyTick {
                phase: BodyPhase::Crossing,
                walk: CoastWalk { hops: (t.walk.hops + 1) as u32, ..t.walk },
                ..t
            }) && action == (BodyAction::FindCrossing { frame: t.walk.frame })
        } else {
            t2 == (BodyTick { phase: BodyPhase::Settling, ..t }) && action == (
            BodyAction::Measure { frame: t.walk.frame })
        },
        (BodyPhase::Crossing, BodyEvent::CrossesInto(to)) => r2 == r && is_crossing(
            nodes,
            parents,
            t,
            to,
            t2,
            action,
        ),
        (BodyPhase::Settling, BodyEvent::Ends { cold, closing, low }) => is_end(
            nodes,
            r,
            t,
            cold,
            closing,
            low,
            r2,
            t2,
            action,
        ),
        _ => r2 == r && t2 == t && action is Nothing,
    }
}

impl BodyTick {
    /// The tick of the body with this number begins.
    pub fn start(eid: u64, warping: bool) -> (out: BodyTick)
        ensures
            out == (BodyTick {
                eid,
                warping,
                phase: BodyPhase::Start,
                dom: 0,
                walk: CoastWalk { frame: 0, hops: 0, crossed: false },
            }),
            forall|nodes: Seq<CelestialNode>| #[trigger] tick_wf(out, nodes),
    {
        BodyTick {
            eid,
            warping,
            phase: BodyPhase::Start,
            dom: 0,
            walk: CoastWalk { frame: 0, hops: 0, crossed: false },
        }
    }

    /// What is done next, now that this was found out.
    pub fn step(
        &mut self,
        rails: &mut Rails,
        nodes: &Vec<CelestialNode>,
        parents: &Vec<Option<usize>>,
        event: BodyEvent,
    ) -> (out: BodyAction)
        requires
            tick_wf(*old(self), nodes@),
            event_fits(event, nodes@),
            parents@.len() == nodes@.len(),
        ensures
            tick_wf(*final(self), nodes@),
            is_body_step(
                nodes@,
                parents@,
                rails_model(*old(rails)),
                *old(self),
                event,
                rails_model(*final(rails)),
                *final(self),
                out,
            ),
    {
        match (self.phase, event) {
            (BodyPhase::Start, BodyEvent::Seen(spheres)) => {
                match dominant(&spheres) {
                    Some(dom) => {
                        assert(spheres@[dom as int].inside);
                        let entry: Entry = rails.enter(nodes, self.eid, dom, self.warping);
                        self.dom = dom;
                        self.phase = BodyPhase::Flying;
                        BodyAction::Look { entry }
                    },
                    None => {
                        self.phase = BodyPhase::Over;
                        BodyAction::Leave
                    },
                }
            },
            (BodyPhase::Flying, BodyEvent::Flies(flight)) => {
                match rails.fly(nodes, self.eid, self.dom, self.warping, flight) {
                    FlightStep::Coast { frame, capture } => {
                        self.walk = CoastWalk::start(frame);
                        self.phase = BodyPhase::Walking;
                        BodyAction::Follow { frame, capture }
                    },
                    FlightStep::Carry => {
                        self.phase = BodyPhase::Over;
                        BodyAction::Carry { dom: self.dom }
                    },
                }
            },
            (BodyPhase::Walking, BodyEvent::EndsIn(end)) => {
                let frame: usize = self.walk.frame;
                let mut walk: CoastWalk = self.walk;
                let more: bool = walk.looks_for_crossing(end);
                self.walk = walk;
                if more {
                    self.phase = BodyPhase::Crossing;
                    BodyAction::FindCrossing { frame }
                } else {
                    self.phase = BodyPhase::Settling;
                    BodyAction::Measure { frame }
                }
            },
            (BodyPhase::Crossing, BodyEvent::CrossesInto(to)) => {
                let mut walk: CoastWalk = self.walk;
                let crossing: Crossing = walk.cross(nodes, parents, to);
                self.walk = walk;
                match crossing {
                    Crossing::Keep => {
                        self.phase = BodyPhase::Settling;
                        BodyAction::Measure { frame: self.walk.frame }
                    },
                    Crossing::Handoff { to: n, line } => {
                        self.phase = BodyPhase::Walking;
                        BodyAction::Handoff { to: n, line }
                    },
                }
            },
            (BodyPhase::Settling, BodyEvent::Ends { cold, closing, low }) => {
                let frame: usize = self.walk.frame;
                let crossed: bool = self.walk.crossed;
                self.phase = BodyPhase::Over;
                match rails.settle(nodes, self.eid, frame, crossed, cold, closing, low) {
                    Settled::Dropped { line } => BodyAction::Drop { line },
                    Settled::Place => BodyAction::Place { frame },
                }
            },
            _ => BodyAction::Nothing,
        }
    }
}

/// How many more steps the tick of a body can take at most.
pub open spec fn steps_left(t: BodyTick) -> int {
    match t.phase {
        BodyPhase::Start => 12,
        BodyPhase::Flying => 11,
        BodyPhase::Walking => 2 * (MAX_HOPS - t.walk.hops) + 2,
        BodyPhase::Crossing => 2 * (MAX_HOPS - t.walk.hops) + 3,
        BodyPhase::Settling => 1,
        BodyPhase::Over => 0,
    }
}

/// Does the action end the tick of a body?
pub open spec fn ends_tick(a: BodyAction) -> bool {
    a is Leave || a is Carry || a is Place || a is Drop
}

/// The tick of a body has an end, however often its conic crosses from sphere to
/// sphere, and at that end one thing becomes of it: it is left alone, carried, put
/// on its conic, or dropped out of it.
pub proof fn law_the_tick_of_a_body_ends(
    nodes: Seq<CelestialNode>,
    parents: Seq<Option<usize>>,
    r: RailsModel,
    t: BodyTick,
    event: BodyEvent,
    r2: RailsModel,
    t2: BodyTick,
    action: BodyAction,
)
    requires
        tick_wf(t, nodes),
        tick_wf(t2, nodes),
        is_body_step(nodes, parents, r, t, event, r2, t2, action),
    ensures
        !(action is Nothing) ==> 0 <= steps_left(t2) < steps_left(t),
        action is Nothing ==> t2 == t && r2 == r,
        ends_tick(action) <==> t.phase != BodyPhase::Over && t2.phase == BodyPhase::Over,
{
}

/// Without warped time every body is left to physics: none is put on a conic, and
/// none stays on one.
pub proof fn law_realtime_belongs_to_physics(
    nodes: Seq<CelestialNode>,
    parents: Seq<Option<usize>>,
    r: RailsModel,
    t: BodyTick,
    event: BodyEvent,
    r2: RailsModel,
    t2: BodyTick,
    action: BodyAction,
)
    requires
        tick_wf(t, nodes),
        is_body_step(nodes, parents, r, t, event, r2, t2, action),
        !t.warping,
    ensures
        !(action is Place) && !(action is Drop) && !(action is Follow),
        action is Carry ==> !r2.coasts.contains_key(t.eid),
{
}

/// A ship that is put on its conic goes on with it at the next tick, in the frame
/// in which it was left, as long as the body that it is remembered by is there; one
/// that is dropped has none.
pub proof fn law_a_coast_goes_on_where_it_was_left(
    nodes: Seq<CelestialNode>,
    parents: Seq<Option<usize>>,
    r: RailsModel,
    t: BodyTick,
    event: BodyEvent,
    r2: RailsModel,
    t2: BodyTick,
    action: BodyAction,
    dom: usize,
)
    requires
        tick_wf(t, nodes),
        is_body_step(nodes, parents, r, t, event, r2, t2, action),
        dom < nodes.len() <= usize::MAX,
        nodes[dom as int].heavy,
        forall|i: int, k: int|
            0 <= i < nodes.len() && 0 <= k < nodes.len() && (#[trigger] nodes[i]).key == (
            #[trigger] nodes[k]).key ==> i == k,
        settled_key(nodes, r.coasts, t.eid, t.walk.frame as int, t.walk.crossed)
            == nodes[t.walk.frame as int].key,
    ensures
        action matches BodyAction::Place { frame } ==> flight_step(
            nodes,
            r2.coasts,
            t.eid,
            dom,
            true,
        ) == (FlightStep::Coast { frame, capture: false }),
        action is Drop ==> (flight_step(nodes, r2.coasts, t.eid, dom, true) matches
            FlightStep::Coast { capture, .. } && capture),
{
    if action is Place {
        crate::space::law_a_coast_keeps_its_conic(
            nodes,
            r2.coasts,
            t.eid,
            dom,
            t.walk.frame as int,
        );
    }
}

/// The tick of one body touches nothing that the rails remember of another.
pub proof fn law_a_tick_touches_its_own_body_alone(
    nodes: Seq<CelestialNode>,
    parents: Seq<Option<usize>>,
    r: RailsModel,
    t: BodyTick,
    event: BodyEvent,
    r2: RailsModel,
    t2: BodyTick,
    action: BodyAction,
    other: u64,
)
    requires
        is_body_step(nodes, parents, r, t, event, r2, t2, action),
        other != t.eid,
    ensures
        t2.eid == t.eid,
        t2.warping == t.warping,
        r2.frames.contains_key(other) == r.frames.contains_key(other),
        r2.coasts.contains_key(other) == r.coasts.contains_key(other),
        r.frames.contains_key(other) ==> r2.frames[other] == r.frames[other],
        r.coasts.contains_key(other) ==> r2.coasts[other] == r.coasts[other],
{
}

/// A body enters the frame of the smallest sphere that it is inside, unless it coasts already;
/// and the rails remember it.
pub proof fn law_a_body_is_in_the_frame_it_is_seen_in(
    nodes: Seq<CelestialNode>,
    parents: Seq<Option<usize>>,
    r: RailsModel,
    t: BodyTick,
    spheres: Vec<Sphere>,
    r2: RailsModel,
    t2: BodyTick,
    action: BodyAction,
)
    requires
        t.phase == BodyPhase::Start,
        spheres@.len() == nodes.len(),
        is_body_step(nodes, parents, r, t, BodyEvent::Seen(spheres), r2, t2, action),
    ensures
        action is Leave <==> forall|i: int|
            0 <= i < spheres@.len() ==> !(#[trigger] spheres@[i]).inside,
        action is Leave || action is Look,
        action is Look ==> is_dominant(spheres@, t2.dom as int) && r2.coasts == r.coasts,
        action is Look && !(t.warping && r.coasts.contains_key(t.eid)) ==> r2.frames.contains_key(
            t.eid,
        ) && r2.frames[t.eid] == nodes[t2.dom as int].key,
        action is Look && t.warping && r.coasts.contains_key(t.eid) ==> r2 == r,
{
}

/// At a crossing a ship goes on in the frame of the body on the other side, unless that has no
/// mass or is the same. A body that goes round the one it comes from is entered; else the one
/// that it comes from is left, and that is what is told.
pub proof fn law_a_crossing_hands_over(
    nodes: Seq<CelestialNode>,
    parents: Seq<Option<usize>>,
    r: RailsModel,
    t: BodyTick,
    to: usize,
    r2: RailsModel,
    t2: BodyTick,
    action: BodyAction,
)
    requires
        t.phase == BodyPhase::Crossing,
        to < nodes.len(),
        is_body_step(nodes, parents, r, t, BodyEvent::CrossesInto(to), r2, t2, action),
    ensures
        r2 == r,
        t2.walk.hops == t.walk.hops,
        action is Handoff <==> to != t.walk.frame && nodes[to as int].heavy,
        action is Handoff || action == (BodyAction::Measure { frame: t.walk.frame }),
        action matches BodyAction::Handoff { to: n, line } ==> n == to && t2.walk.frame == to
            && t2.walk.crossed && t2.phase == BodyPhase::Walking && (parents[to as int] == Some(
            t.walk.frame,
        ) ==> line.text@ == "entered "@ + nodes[to as int].name@ + "'s sphere of influence"@) && (
        parents[to as int] != Some(t.walk.frame) ==> line.text@ == "left "@
            + nodes[t.walk.frame as int].name@ + "'s sphere of influence"@),
        !(action is Handoff) ==> t2.walk == t.walk && t2.phase == BodyPhase::Settling,
{
}

/// A ship is dropped out of warped time exactly where it closes in on cold terrain or flies
/// low, and is put on its conic everywhere else. Dropped, it coasts no more; placed, it is
/// remembered by the same body as its frame is.
pub proof fn law_a_ship_is_dropped_or_placed(
    nodes: Seq<CelestialNode>,
    parents: Seq<Option<usize>>,
    r: RailsModel,
    t: BodyTick,
    cold: bool,
    closing: bool,
    low: bool,
    r2: RailsModel,
    t2: BodyTick,
    action: BodyAction,
)
    requires
        t.phase == BodyPhase::Settling,
        is_body_step(
            nodes,
            parents,
            r,
            t,
            BodyEvent::Ends { cold, closing, low },
            r2,
            t2,
            action,
        ),
    ensures
        action is Drop <==> (cold && closing) || low,
        action is Place <==> !((cold && closing) || low),
        action is Drop ==> !r2.coasts.contains_key(t.eid),
        action matches BodyAction::Place { frame } ==> frame == t.walk.frame
            && r2.coasts.contains_key(t.eid) && r2.coasts[t.eid] == r2.frames[t.eid],
        r2.frames.contains_key(t.eid),
        t.walk.crossed ==> r2.frames[t.eid] == nodes[t.walk.frame as int].key,
        action matches BodyAction::Drop { line } ==> if cold && closing {
            line_model(line) == streaming(nodes[t.walk.frame as int].name@)
        } else {
            line_model(line) == too_low()
        },
{
}

/// A conic that ends the tick in the frame it is in ends the walk; one that ends in another
/// has its crossing looked for, as long as any more are.
pub proof fn law_a_conic_is_followed_to_its_crossing(
    nodes: Seq<CelestialNode>,
    parents: Seq<Option<usize>>,
    r: RailsModel,
    t: BodyTick,
    end: usize,
    r2: RailsModel,
    t2: BodyTick,
    action: BodyAction,
)
    requires
        t.phase == BodyPhase::Walking,
        tick_wf(t, nodes),
        is_body_step(nodes, parents, r, t, BodyEvent::EndsIn(end), r2, t2, action),
    ensures
        r2 == r,
        action == (BodyAction::FindCrossing { frame: t.walk.frame }) || action == (
        BodyAction::Measure { frame: t.walk.frame }),
        action is Measure <==> end == t.walk.frame || t.walk.hops == MAX_HOPS,
        action is FindCrossing ==> t2.walk.hops == t.walk.hops + 1,
        action is Measure ==> t2.walk == t.walk,
        t2.walk.frame == t.walk.frame && t2.walk.crossed == t.walk.crossed,
{
}

/// What is carried moves along with the body that it belongs to and coasts no more; what
/// coasts begins its walk in the frame of its conic, and is remembered.
pub proof fn law_a_flight_is_carried_or_followed(
    nodes: Seq<CelestialNode>,
    parents: Seq<Option<usize>>,
    r: RailsModel,
    t: BodyTick,
    flight: Flight,
    r2: RailsModel,
    t2: BodyTick,
    action: BodyAction,
)
    requires
        t.phase == BodyPhase::Flying,
        tick_wf(t, nodes),
        is_body_step(nodes, parents, r, t, BodyEvent::Flies(flight), r2, t2, action),
    ensures
        r2.frames == r.frames,
        action is Carry || action is Follow,
        action is Follow <==> t.warping && !flight.grounded && flight.clear && flight.moving
            && nodes[t.dom as int].heavy,
        action matches BodyAction::Carry { dom } ==> dom == t.dom && !r2.coasts.contains_key(t.eid),
        action matches BodyAction::Follow { frame, capture } ==> t2.walk.frame == frame
            && t2.walk.hops == 0 && !t2.walk.crossed && r2.coasts.contains_key(t.eid) && (capture
            <==> !r.coasts.contains_key(t.eid)) && (capture ==> r2.coasts[t.eid]
            == nodes[t.dom as int].key) && (!capture ==> r2.coasts == r.coasts),
{
}

} // verus!
