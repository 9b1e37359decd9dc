//! Bodies on rails: which celestial body something belongs to, when it changes
//! from one to another, and how a ship coasts while time is warped.
//!
//! Every body that moves is in the frame of one celestial body: the smallest
//! sphere of influence that it is inside. It is carried along with that body.
//! While time is warped a ship in flight coasts on a conic of its own, which is
//! handed from frame to frame at each crossing.

use crate::lists::{first_place, lemma_first_place, place_of};
use crate::script_actions::line_model;
use crate::system_gen::{LogLevel, LogLine};
use crate::text::{copy_of, joined, same_text};
use std::collections::HashMap;
use vstd::prelude::*;

verus! {

broadcast use vstd::std_specs::hash::group_hash_axioms;

// ---- the system ------------------------------------------------------------

/// A celestial body as its node has it.
pub struct CelestialNode {
    /// The number of the node.
    pub key: u64,
    pub name: String,
    /// The name of the body that it goes round. Empty for the middle one.
    pub parent: String,
    /// Has it mass?
    pub heavy: bool,
}

/// The first body with this name, or the number of bodies.
pub open spec fn named_place(nodes: Seq<CelestialNode>, name: Seq<char>) -> int
    decreases nodes.len(),
{
    if nodes.len() == 0 {
        0
    } else if nodes[0].name@ == name {
        0
    } else {
        1 + named_place(nodes.skip(1), name)
    }
}

/// Where a name is found, there is a body with it, and none before it has it.
pub proof fn lemma_named_place(nodes: Seq<CelestialNode>, name: Seq<char>)
    ensures
        0 <= named_place(nodes, name) <= nodes.len(),
        named_place(nodes, name) < nodes.len() ==> nodes[named_place(nodes, name)].name@ == name,
        forall|i: int|
            0 <= i < named_place(nodes, name) ==> (#[trigger] nodes[i]).name@ != name,
    decreases nodes.len(),
{
    if nodes.len() > 0 && nodes[0].name@ != name {
        lemma_named_place(nodes.skip(1), name);
        let k = named_place(nodes.skip(1), name);
        assert(k < nodes.len() - 1 ==> nodes[k + 1] == nodes.skip(1)[k]);
        assert forall|i: int| 0 <= i < k + 1 implies (#[trigger] nodes[i]).name@ != name by {
            if i > 0 {
                assert(nodes.skip(1)[i - 1] == nodes[i]);
            }
        }
    }
}

/// The body that one goes round: the first of that name. A body that names none,
/// or one that is not there, goes round nothing.
pub open spec fn parent_of(nodes: Seq<CelestialNode>, name: Seq<char>) -> Option<usize> {
    if name.len() > 0 && named_place(nodes, name) < nodes.len() {
        Some(named_place(nodes, name) as usize)
    } else {
        None
    }
}

/// The first body with this name.
fn find_named(nodes: &Vec<CelestialNode>, name: &str) -> (out: usize)
    ensures
        out == named_place(nodes@, name@),
{
    let mut i: usize = 0;
    assert(nodes@.skip(0) =~= nodes@);
    while i < nodes.len()
        invariant
            i <= nodes.len(),
            named_place(nodes@, name@) == i + named_place(nodes@.skip(i as int), name@),
        decreases nodes.len() - i,
    {
        if same_text(nodes[i].name.as_str(), name) {
            return i;
        }
        assert(nodes@.skip(i as int).skip(1) =~= nodes@.skip(i + 1));
        i += 1;
    }
    i
}

/// The bodies that each goes round.
pub fn link_parents(nodes: &Vec<CelestialNode>) -> (out: Vec<Option<usize>>)
    ensures
        out@ == nodes@.map_values(|n: CelestialNode| parent_of(nodes@, n.parent@)),
{
    let mut out: Vec<Option<usize>> = Vec::new();
    let mut i: usize = 0;
    while i < nodes.len()
        invariant
            i <= nodes.len(),
            out@.len() == i,
            forall|j: int| 0 <= j < i ==> #[trigger] out@[j] == parent_of(nodes@, nodes@[j].parent@),
        decreases nodes.len() - i,
    {
        let name: &String = &nodes[i].parent;
        let at: usize = find_named(nodes, name.as_str());
        if name.as_str().unicode_len() > 0 && at < nodes.len() {
            out.push(Some(at));
        } else {
            out.push(None);
        }
        i += 1;
    }
    out
}

/// Where the radius of a sphere of influence comes from.
#[derive(Clone, Copy, Debug, PartialEq, Eq, Structural)]
pub enum SphereRule {
    /// The body says it.
    Own,
    /// From the orbit round this body and the two masses.
    FromOrbit { round: usize },
    /// It has no end.
    Endless,
}

/// Where the radius of a sphere of influence comes from.
pub fn sphere_rule(says_one: bool, parent: Option<usize>) -> (out: SphereRule)
    ensures
        out == if says_one {
            SphereRule::Own
        } else {
            match parent {
                Some(p) => SphereRule::FromOrbit { round: p },
                None => SphereRule::Endless,
            }
        },
{
    if says_one {
        SphereRule::Own
    } else {
        match parent {
            Some(p) => SphereRule::FromOrbit { round: p },
            None => SphereRule::Endless,
        }
    }
}

/// A body goes round the first of the name that it gives, and round nothing exactly where it
/// gives none or none is there.
pub proof fn law_a_body_goes_round_the_one_it_names(nodes: Seq<CelestialNode>, name: Seq<char>)
    requires
        nodes.len() <= usize::MAX,
    ensures
        parent_of(nodes, name) matches Some(p) ==> p < nodes.len() && nodes[p as int].name@ == name
            && forall|i: int| 0 <= i < p ==> (#[trigger] nodes[i]).name@ != name,
        parent_of(nodes, name) is None <==> name.len() == 0 || forall|i: int|
            0 <= i < nodes.len() ==> (#[trigger] nodes[i]).name@ != name,
{
    lemma_named_place(nodes, name);
}

// ---- the body that something belongs to ------------------------------------

/// A sphere of influence as something that moves sees it.
#[derive(Clone, Copy, Debug, PartialEq, Eq, Structural)]
pub struct Sphere {
    /// Is it inside?
    pub inside: bool,
    /// The radius, as a number that orders radii.
    pub radius: u64,
}

/// The radius of a sphere that has no end.
pub const ENDLESS: u64 = u64::MAX;

/// Is `i` the first of the smallest spheres that something is inside?
pub open spec fn is_dominant(spheres: Seq<Sphere>, i: int) -> bool {
    0 <= i < spheres.len() && spheres[i].inside && (forall|j: int|
        0 <= j < spheres.len() && (#[trigger] spheres[j]).inside ==> spheres[i].radius
            <= spheres[j].radius && (spheres[i].radius == spheres[j].radius ==> i <= j))
}

/// Is something inside no sphere?
pub open spec fn is_nowhere(spheres: Seq<Sphere>) -> bool {
    forall|j: int| 0 <= j < spheres.len() ==> !(#[trigger] spheres[j]).inside
}

/// The body that something belongs to: the one with the smallest sphere that it
/// is inside.
pub fn dominant(spheres: &Vec<Sphere>) -> (out: Option<usize>)
    ensures
        match out {
            Some(i) => is_dominant(spheres@, i as int),
            None => is_nowhere(spheres@),
        },
{
    let mut best: Option<usize> = None;
    let mut i: usize = 0;
    while i < spheres.len()
        invariant
            i <= spheres.len(),
            match best {
                Some(b) => b < i && is_dominant(spheres@.take(i as int), b as int),
                None => is_nowhere(spheres@.take(i as int)),
            },
        decreases spheres.len() - i,
    {
        let ghost before = spheres@.take(i as int);
        let ghost after = spheres@.take(i + 1);
        assert(forall|j: int| 0 <= j < i ==> before[j] == #[trigger] after[j]);
        assert(after[i as int] == spheres@[i as int]);
        let smaller: bool = match best {
            Some(b) => spheres[i].radius < spheres[b].radius,
            None => true,
        };
        if spheres[i].inside && smaller {
            best = Some(i);
        }
        proof {
            match best {
                Some(b) => {
                    assert forall|j: int| 0 <= j < after.len() && (#[trigger] after[j]).inside implies after[b as int].radius
                        <= after[j].radius && (after[b as int].radius == after[j].radius ==> b
                        <= j) by {
                        if j < i {
                            assert(before[j] == after[j]);
                        }
                    }
                },
                None => {
                    assert forall|j: int| 0 <= j < after.len() implies !(
                    #[trigger] after[j]).inside by {
                        if j < i {
                            assert(before[j] == after[j]);
                        }
                    }
                },
            }
        }
        i += 1;
    }
    assert(spheres@.take(i as int) =~= spheres@);
    best
}

/// The spheres that end.
pub open spec fn ended(spheres: Seq<Sphere>) -> Seq<Sphere> {
    spheres.map_values(
        |s: Sphere| Sphere { inside: s.inside && s.radius < ENDLESS, radius: s.radius },
    )
}

/// The body that a point of a conic belongs to: the one with the smallest sphere
/// that it is inside, or else the middle one.
pub fn dominant_at(spheres: &Vec<Sphere>, root: usize) -> (out: usize)
    ensures
        if is_nowhere(ended(spheres@)) {
            out == root
        } else {
            is_dominant(ended(spheres@), out as int)
        },
{
    let mut cut: Vec<Sphere> = Vec::new();
    let mut i: usize = 0;
    while i < spheres.len()
        invariant
            i <= spheres.len(),
            cut@.len() == i,
            forall|j: int| 0 <= j < i ==> #[trigger] cut@[j] == ended(spheres@)[j],
        decreases spheres.len() - i,
    {
        let s: Sphere = spheres[i];
        cut.push(Sphere { inside: s.inside && s.radius < ENDLESS, radius: s.radius });
        i += 1;
    }
    assert(cut@ =~= ended(spheres@));
    let found: Option<usize> = dominant(&cut);
    match found {
        Some(i) => {
            assert(ended(spheres@)[i as int].inside);
            i
        },
        None => root,
    }
}

/// A body belongs to one celestial body at most.
pub proof fn law_the_dominant_body_is_unique(spheres: Seq<Sphere>, i: int, j: int)
    requires
        is_dominant(spheres, i),
        is_dominant(spheres, j),
    ensures
        i == j,
        !is_nowhere(spheres),
{
    assert(spheres[i].inside && spheres[j].inside);
}

/// A smaller sphere that something comes into takes it over, and a sphere that it is not
/// inside changes nothing, however small.
pub proof fn law_the_smaller_sphere_takes_over(spheres: Seq<Sphere>, i: int, radius: u64)
    requires
        is_dominant(spheres, i),
    ensures
        is_dominant(spheres.push(Sphere { inside: false, radius }), i),
        radius >= spheres[i].radius ==> is_dominant(
            spheres.push(Sphere { inside: true, radius }),
            i,
        ),
        radius < spheres[i].radius ==> is_dominant(
            spheres.push(Sphere { inside: true, radius }),
            spheres.len() as int,
        ),
{
}

/// A sphere without an end holds nothing by itself; every other is what it was.
pub proof fn law_an_endless_sphere_holds_nothing(spheres: Seq<Sphere>, i: int)
    requires
        0 <= i < spheres.len(),
    ensures
        ended(spheres).len() == spheres.len(),
        ended(spheres)[i].inside <==> spheres[i].inside && spheres[i].radius != ENDLESS,
        ended(spheres)[i].radius == spheres[i].radius,
{
}

// ---- frames and coasting ---------------------------------------------------

/// The place of the body with this number, or the number of bodies.
fn key_place(nodes: &Vec<CelestialNode>, key: u64) -> (out: usize)
    ensures
        out == first_place(keys_of(nodes@), key),
{
    let mut keys: Vec<u64> = Vec::new();
    let mut i: usize = 0;
    while i < nodes.len()
        invariant
            i <= nodes.len(),
            keys@ == keys_of(nodes@.take(i as int)),
        decreases nodes.len() - i,
    {
        keys.push(nodes[i].key);
        assert(keys@ =~= keys_of(nodes@.take(i + 1)));
        i += 1;
    }
    assert(nodes@.take(i as int) =~= nodes@);
    place_of(&keys, key)
}

/// The numbers of the nodes of the bodies.
pub open spec fn keys_of(nodes: Seq<CelestialNode>) -> Seq<u64> {
    nodes.map_values(|n: CelestialNode| n.key)
}

/// What the rails remember from tick to tick.
pub struct Rails {
    /// The body that each moving thing belonged to, by the number of its node.
    pub frames: HashMap<u64, u64>,
    /// The body round which each coasting ship coasts.
    pub coasts: HashMap<u64, u64>,
}

/// A change from one frame to another.
pub enum Entry {
    /// It goes on as it was.
    Stay,
    /// It changes from the frame of the body `from` to that of the body `to`. Its
    /// velocity changes by the difference of theirs, so that it moves on through
    /// the world as it did.
    Seam { from: usize, to: usize, line: LogLine },
}

/// How something flies.
#[derive(Clone, Copy, Debug, PartialEq, Eq, Structural)]
pub struct Flight {
    /// Does it stand on something?
    pub grounded: bool,
    /// Is it clear of the surface of the body that it belongs to?
    pub clear: bool,
    /// Does it move, as that body sees it?
    pub moving: bool,
}

/// What is done with something that moves.
#[derive(Clone, Copy, Debug, PartialEq, Eq, Structural)]
pub enum FlightStep {
    /// It coasts in the frame of the body `frame`. Where `capture` is set, its
    /// conic is taken from how it moves now; else it goes on with the one it has.
    Coast { frame: usize, capture: bool },
    /// It moves along with the body that it belongs to.
    Carry,
}

/// The line for a frame that is entered.
pub open spec fn entered(name: Seq<char>) -> (LogLevel, Seq<char>) {
    (LogLevel::Debug, "entered "@ + name + "'s sphere of influence"@)
}

/// The line for a frame that is left.
pub open spec fn left(name: Seq<char>) -> (LogLevel, Seq<char>) {
    (LogLevel::Debug, "left "@ + name + "'s sphere of influence"@)
}

/// A line about a sphere of influence.
fn sphere_line(verb: &str, name: &str) -> (out: LogLine)
    ensures
        line_model(out) == (LogLevel::Debug, verb@ + name@ + "'s sphere of influence"@),
{
    LogLine {
        level: LogLevel::Debug,
        text: joined(joined(verb, name).as_str(), "'s sphere of influence"),
    }
}

/// The frame that something changes from, where it does: the one it was in, if
/// that is another and its body is still there.
pub open spec fn seam_from(
    nodes: Seq<CelestialNode>,
    frames: Map<u64, u64>,
    eid: u64,
    dom: int,
) -> Option<int> {
    if frames.contains_key(eid) && frames[eid] != nodes[dom].key && first_place(
        keys_of(nodes),
        frames[eid],
    ) < nodes.len() {
        Some(first_place(keys_of(nodes), frames[eid]))
    } else {
        None
    }
}

/// Is this what `seam_from` says?
pub open spec fn is_entry(entry: Entry, nodes: Seq<CelestialNode>, dom: int, from: Option<int>) -> bool {
    match from {
        Some(j) => entry matches Entry::Seam { from, to, line } && from == j && to == dom
            && line_model(line) == entered(nodes[dom].name@),
        None => entry is Stay,
    }
}

/// Does a ship fly, so that it may coast?
pub open spec fn is_flying(warping: bool, flight: Flight) -> bool {
    warping && !flight.grounded && flight.clear && flight.moving
}

/// What is done with something in the frame `dom`.
pub open spec fn flight_step(
    nodes: Seq<CelestialNode>,
    coasts: Map<u64, u64>,
    eid: u64,
    dom: usize,
    flying: bool,
) -> FlightStep {
    if flying && nodes[dom as int].heavy {
        if coasts.contains_key(eid) {
            let j = first_place(keys_of(nodes), coasts[eid]);
            FlightStep::Coast {
                frame: if j < nodes.len() {
                    j as usize
                } else {
                    dom
                },
                capture: false,
            }
        } else {
            let j = first_place(keys_of(nodes), nodes[dom as int].key);
            FlightStep::Coast { frame: j as usize, capture: true }
        }
    } else {
        FlightStep::Carry
    }
}

impl Rails {
    /// Nothing moves yet.
    pub fn new() -> (out: Self)
        ensures
            out.frames@ == Map::<u64, u64>::empty(),
            out.coasts@ == Map::<u64, u64>::empty(),
    {
        Rails { frames: HashMap::new(), coasts: HashMap::new() }
    }

    /// A tick begins. Once time is no longer warped nothing coasts.
    pub fn begin_tick(&mut self, warping: bool)
        ensures
            final(self).frames@ == old(self).frames@,
            final(self).coasts@ == if warping {
                old(self).coasts@
            } else {
                Map::empty()
            },
    {
        if !warping {
            self.coasts.clear();
        }
    }

    /// Notes that something is in the frame `dom`, and says whether it changes.
    fn change_frame(&mut self, nodes: &Vec<CelestialNode>, eid: u64, dom: usize) -> (out: Entry)
        requires
            dom < nodes@.len(),
        ensures
            final(self).coasts@ == old(self).coasts@,
            final(self).frames@ == old(self).frames@.insert(eid, nodes@[dom as int].key),
            is_entry(
                out,
                nodes@,
                dom as int,
                seam_from(nodes@, old(self).frames@, eid, dom as int),
            ),
    {
        let key: u64 = nodes[dom].key;
        let was: Option<u64> = self.frames.insert(eid, key);
        match was {
            Some(p) => {
                proof {
                    lemma_first_place(keys_of(nodes@), p);
                }
                let j: usize = key_place(nodes, p);
                if p != key && j < nodes.len() {
                    return Entry::Seam {
                        from: j,
                        to: dom,
                        line: sphere_line("entered ", nodes[dom].name.as_str()),
                    };
                }
                Entry::Stay
            },
            None => Entry::Stay,
        }
    }

    /// Something that moves is in the frame of the body `dom` at this tick. A
    /// ship that coasts changes its frame at the crossing itself, not here.
    pub fn enter(&mut self, nodes: &Vec<CelestialNode>, eid: u64, dom: usize, warping: bool) -> (out:
        Entry)
        requires
            dom < nodes@.len(),
        ensures
            final(self).coasts@ == old(self).coasts@,
            if warping && old(self).coasts@.contains_key(eid) {
                out is Stay && final(self).frames@ == old(self).frames@
            } else {
                final(self).frames@ == old(self).frames@.insert(eid, nodes@[dom as int].key)
                    && is_entry(
                    out,
                    nodes@,
                    dom as int,
                    seam_from(nodes@, old(self).frames@, eid, dom as int),
                )
            },
    {
        if warping && self.coasts.contains_key(&eid) {
            return Entry::Stay;
        }
        self.change_frame(nodes, eid, dom)
    }

    /// A compound is in the frame of the body `dom` at this tick. Compounds never
    /// coast.
    pub fn enter_compound(&mut self, nodes: &Vec<CelestialNode>, eid: u64, dom: usize) -> (out:
        Entry)
        requires
            dom < nodes@.len(),
        ensures
            final(self).coasts@ == old(self).coasts@,
            final(self).frames@ == old(self).frames@.insert(eid, nodes@[dom as int].key),
            is_entry(
                out,
                nodes@,
                dom as int,
                seam_from(nodes@, old(self).frames@, eid, dom as int),
            ),
    {
        self.change_frame(nodes, eid, dom)
    }

    /// What is done with something in the frame of the body `dom`.
    pub fn fly(
        &mut self,
        nodes: &Vec<CelestialNode>,
        eid: u64,
        dom: usize,
        warping: bool,
        flight: Flight,
    ) -> (out: FlightStep)
        requires
            dom < nodes@.len(),
        ensures
            final(self).frames@ == old(self).frames@,
            out == flight_step(
                nodes@,
                old(self).coasts@,
                eid,
                dom,
                is_flying(warping, flight),
            ),
            final(self).coasts@ == match out {
                FlightStep::Coast { capture, .. } => if capture {
                    old(self).coasts@.insert(eid, nodes@[dom as int].key)
                } else {
                    old(self).coasts@
                },
                FlightStep::Carry => old(self).coasts@.remove(eid),
            },
            out matches FlightStep::Coast { frame, .. } ==> frame < nodes@.len(),
    {
        let flying: bool = warping && !flight.grounded && flight.clear && flight.moving;
        if flying && nodes[dom].heavy {
            let has: Option<u64> = match self.coasts.get(&eid) {
                Some(k) => Some(*k),
                None => None,
            };
            match has {
                Some(k) => {
                    proof {
                        lemma_first_place(keys_of(nodes@), k);
                    }
                    let j: usize = key_place(nodes, k);
                    let frame: usize = if j < nodes.len() {
                        j
                    } else {
                        dom
                    };
                    FlightStep::Coast { frame, capture: false }
                },
                None => {
                    let key: u64 = nodes[dom].key;
                    proof {
                        lemma_first_place(keys_of(nodes@), key);
                        assert(keys_of(nodes@)[dom as int] == key);
                    }
                    let frame: usize = key_place(nodes, key);
                    let _was: Option<u64> = self.coasts.insert(eid, key);
                    FlightStep::Coast { frame, capture: true }
                },
            }
        } else {
            let _was: Option<u64> = self.coasts.remove(&eid);
            FlightStep::Carry
        }
    }

    /// The end of a coast's walk through this tick, in the frame of the body
    /// `frame`. Where it crossed into that frame the coast is told so.
    pub fn settle(
        &mut self,
        nodes: &Vec<CelestialNode>,
        eid: u64,
        frame: usize,
        crossed: bool,
        cold: bool,
        closing: bool,
        low: bool,
    ) -> (out: Settled)
        requires
            frame < nodes@.len(),
        ensures
            final(self).frames@ == old(self).frames@.insert(
                eid,
                settled_key(nodes@, old(self).coasts@, eid, frame as int, crossed),
            ),
            if cold && closing {
                out matches Settled::Dropped { line } && line_model(line) == streaming(
                    nodes@[frame as int].name@,
                ) && final(self).coasts@ == old(self).coasts@.remove(eid)
            } else if low {
                out matches Settled::Dropped { line } && line_model(line) == too_low()
                    && final(self).coasts@ == old(self).coasts@.remove(eid)
            } else {
                out is Place && final(self).coasts@ == old(self).coasts@.insert(
                    eid,
                    settled_key(nodes@, old(self).coasts@, eid, frame as int, crossed),
                )
            },
    {
        let key: u64 = match self.coasts.get(&eid) {
            Some(k) => if crossed {
                nodes[frame].key
            } else {
                *k
            },
            None => nodes[frame].key,
        };
        let _coast: Option<u64> = self.coasts.insert(eid, key);
        let _frame: Option<u64> = self.frames.insert(eid, key);
        if cold && closing {
            let _was: Option<u64> = self.coasts.remove(&eid);
            assert(self.coasts@ =~= old(self).coasts@.remove(eid));
            let text: String = joined(
                joined("time-warp dropped to 1× — streaming ", nodes[frame].name.as_str()).as_str(),
                "'s terrain in (re-warp in a moment)",
            );
            return Settled::Dropped { line: LogLine { level: LogLevel::Debug, text } };
        }
        if low {
            let _was: Option<u64> = self.coasts.remove(&eid);
            assert(self.coasts@ =~= old(self).coasts@.remove(eid));
            let text: String = copy_of("time-warp dropped to 1× — surface proximity");
            return Settled::Dropped { line: LogLine { level: LogLevel::Debug, text } };
        }
        Settled::Place
    }
}

/// The number that a coast is remembered by after a walk: that of the body which it
/// crossed into, or the one that it was remembered by, where it crossed into none.
pub open spec fn settled_key(
    nodes: Seq<CelestialNode>,
    coasts: Map<u64, u64>,
    eid: u64,
    frame: int,
    crossed: bool,
) -> u64 {
    if crossed || !coasts.contains_key(eid) {
        nodes[frame].key
    } else {
        coasts[eid]
    }
}

/// How a coast goes on after a tick.
pub enum Settled {
    /// Time runs as it does again, and the ship is left to physics: it closes in
    /// on a body whose terrain is still `cold`, or it flies too low.
    Dropped { line: LogLine },
    /// The ship is put where its conic says.
    Place,
}

/// The line for a body whose terrain has to be brought in.
pub open spec fn streaming(name: Seq<char>) -> (LogLevel, Seq<char>) {
    (
        LogLevel::Debug,
        "time-warp dropped to 1× — streaming "@ + name + "'s terrain in (re-warp in a moment)"@,
    )
}

/// The line for a ship that flies too low to be moved by warped time.
pub open spec fn too_low() -> (LogLevel, Seq<char>) {
    (LogLevel::Debug, "time-warp dropped to 1× — surface proximity"@)
}

/// How many crossings are looked for in one tick.
pub const MAX_HOPS: u32 = 4;

/// The walk of a coast through a tick, from crossing to crossing.
#[derive(Clone, Copy, Debug, PartialEq, Eq, Structural)]
pub struct CoastWalk {
    /// The body round which it coasts.
    pub frame: usize,
    /// How many crossings were looked for.
    pub hops: u32,
    /// Did it cross into the frame of another body?
    pub crossed: bool,
}

/// What a walk does at a crossing.
pub enum Crossing {
    /// It keeps its frame and goes on to the end of the tick.
    Keep,
    /// It goes on in the frame of the body `to`, on a conic that is taken from
    /// how it moves there.
    Handoff { to: usize, line: LogLine },
}

impl CoastWalk {
    /// A walk begins.
    pub fn start(frame: usize) -> (out: Self)
        ensures
            out == (CoastWalk { frame, hops: 0, crossed: false }),
    {
        CoastWalk { frame, hops: 0, crossed: false }
    }

    /// The conic ends the tick in the sphere of the body `end`. Is there a
    /// crossing to be looked for?
    pub fn looks_for_crossing(&mut self, end: usize) -> (out: bool)
        requires
            old(self).hops <= MAX_HOPS,
        ensures
            out == (end != old(self).frame && old(self).hops < MAX_HOPS),
            *final(self) == (CoastWalk {
                hops: if out {
                    (old(self).hops + 1) as u32
                } else {
                    old(self).hops
                },
                ..*old(self)
            }),
    {
        if end == self.frame || self.hops >= MAX_HOPS {
            return false;
        }
        self.hops += 1;
        true
    }

    /// The crossing was found, and the body on its other side is `to`.
    pub fn cross(&mut self, nodes: &Vec<CelestialNode>, parents: &Vec<Option<usize>>, to: usize) -> (out:
        Crossing)
        requires
            old(self).frame < nodes@.len(),
            to < nodes@.len(),
            parents@.len() == nodes@.len(),
        ensures
            if to == old(self).frame || !nodes@[to as int].heavy {
                out is Keep && *final(self) == *old(self)
            } else {
                out matches Crossing::Handoff { to: t, line } && t == to && *final(self) == (
                CoastWalk { frame: to, hops: old(self).hops, crossed: true }) && line_model(line) == if parents@[to as int] == Some(old(self).frame) {
                    entered(nodes@[to as int].name@)
                } else {
                    left(nodes@[old(self).frame as int].name@)
                }
            },
    {
        if to == self.frame || !nodes[to].heavy {
            return Crossing::Keep;
        }
        let inward: bool = match parents[to] {
            Some(p) => p == self.frame,
            None => false,
        };
        let line: LogLine = if inward {
            sphere_line("entered ", nodes[to].name.as_str())
        } else {
            sphere_line("left ", nodes[self.frame].name.as_str())
        };
        self.frame = to;
        self.crossed = true;
        Crossing::Handoff { to, line }
    }
}

/// A crossing that a walk meets: the body in whose sphere its conic would end the
/// tick, and the one in whose frame it goes on from there.
pub struct Met {
    pub end: usize,
    pub next: usize,
}

/// How many crossings a walk has looked for once it has met these, one after the
/// other, each in the frame that the one before left it in.
pub open spec fn hops_after(met: Seq<Met>, frame: usize, hops: int) -> int
    decreases met.len(),
{
    if met.len() == 0 {
        hops
    } else if met[0].end != frame && hops < MAX_HOPS {
        hops_after(met.skip(1), met[0].next, hops + 1)
    } else {
        hops
    }
}

/// However often a conic crosses from sphere to sphere, and into whichever frames,
/// one tick looks for four crossings at most.
pub proof fn law_a_tick_ends(met: Seq<Met>, frame: usize, hops: int)
    requires
        0 <= hops <= MAX_HOPS,
    ensures
        hops <= hops_after(met, frame, hops) <= MAX_HOPS,
    decreases met.len(),
{
    if met.len() > 0 && met[0].end != frame && hops < MAX_HOPS {
        law_a_tick_ends(met.skip(1), met[0].next, hops + 1);
    }
}

/// Only a ship in flight, while time is warped, coasts. What stands on something
/// is carried.
pub proof fn law_only_a_flying_ship_coasts(
    nodes: Seq<CelestialNode>,
    coasts: Map<u64, u64>,
    eid: u64,
    dom: usize,
    warping: bool,
    flight: Flight,
)
    requires
        !warping || flight.grounded || !flight.moving || !flight.clear,
    ensures
        flight_step(nodes, coasts, eid, dom, is_flying(warping, flight)) is Carry,
{
}

/// A conic is taken once: a ship that coasts already goes on with the one it has,
/// in the frame that it was taken in.
pub proof fn law_a_coast_keeps_its_conic(
    nodes: Seq<CelestialNode>,
    coasts: Map<u64, u64>,
    eid: u64,
    dom: usize,
    j: int,
)
    requires
        0 <= dom < nodes.len(),
        nodes[dom as int].heavy,
        coasts.contains_key(eid),
        0 <= j < nodes.len() <= usize::MAX,
        nodes[j].key == coasts[eid],
        forall|i: int, k: int|
            0 <= i < nodes.len() && 0 <= k < nodes.len() && (#[trigger] nodes[i]).key == (
            #[trigger] nodes[k]).key ==> i == k,
    ensures
        flight_step(nodes, coasts, eid, dom, true) == (FlightStep::Coast {
            frame: j as usize,
            capture: false,
        }),
{
    let p = first_place(keys_of(nodes), coasts[eid]);
    lemma_first_place(keys_of(nodes), coasts[eid]);
    assert(keys_of(nodes)[j] == coasts[eid]);
    assert(keys_of(nodes)[p] == nodes[p].key);
    assert(nodes[p].key == nodes[j].key);
}

/// Something that stays with one body never changes its velocity at a seam.
pub proof fn law_no_seam_without_a_change(
    nodes: Seq<CelestialNode>,
    frames: Map<u64, u64>,
    eid: u64,
    dom: int,
)
    requires
        0 <= dom < nodes.len(),
        frames.contains_key(eid) ==> frames[eid] == nodes[dom].key,
    ensures
        seam_from(nodes, frames, eid, dom) is None,
{
}

/// Something changes its frame exactly where it was in that of another body which is
/// still there, and then it changes from that body to the new one, whichever of the two
/// comes first in the list.
pub proof fn law_every_crossing_is_a_seam(
    nodes: Seq<CelestialNode>,
    frames: Map<u64, u64>,
    eid: u64,
    a: int,
    b: int,
    entry: Entry,
)
    requires
        0 <= a < nodes.len(),
        0 <= b < nodes.len(),
        frames.contains_key(eid),
        frames[eid] == nodes[a].key,
        is_entry(entry, nodes, b, seam_from(nodes, frames, eid, b)),
    ensures
        entry is Seam <==> nodes[a].key != nodes[b].key,
        entry matches Entry::Seam { from, to, line } ==> from < nodes.len() && nodes[from as int].key
            == nodes[a].key && to == b && from != to && line.level is Debug && line.text@
            == "entered "@ + nodes[b].name@ + "'s sphere of influence"@,
        keys_of(nodes).no_duplicates() && a != b ==> (entry matches Entry::Seam { from, to, .. }
            && from == a && to == b),
{
    let p = first_place(keys_of(nodes), frames[eid]);
    lemma_first_place(keys_of(nodes), frames[eid]);
    assert(keys_of(nodes)[a] == frames[eid]);
    assert(keys_of(nodes).contains(frames[eid]));
    assert(keys_of(nodes)[p] == nodes[p].key);
    assert(keys_of(nodes)[b] == nodes[b].key);
}

/// A crossing from one body to another is a seam exactly where the way back is.
pub proof fn law_the_way_back_is_a_seam_too(
    nodes: Seq<CelestialNode>,
    frames: Map<u64, u64>,
    eid: u64,
    a: int,
    b: int,
)
    requires
        0 <= a < nodes.len(),
        0 <= b < nodes.len(),
    ensures
        seam_from(nodes, frames.insert(eid, nodes[a].key), eid, b) is Some <==> seam_from(
            nodes,
            frames.insert(eid, nodes[b].key),
            eid,
            a,
        ) is Some,
        seam_from(nodes, frames.insert(eid, nodes[a].key), eid, b) is Some <==> nodes[a].key
            != nodes[b].key,
{
    lemma_first_place(keys_of(nodes), nodes[a].key);
    lemma_first_place(keys_of(nodes), nodes[b].key);
    assert(keys_of(nodes)[a] == nodes[a].key);
    assert(keys_of(nodes)[b] == nodes[b].key);
    assert(keys_of(nodes).contains(nodes[a].key));
    assert(keys_of(nodes).contains(nodes[b].key));
}

/// What was in no frame yet, or in that of a body which is gone, enters its frame
/// without a seam.
pub proof fn law_what_comes_from_nowhere_crosses_nothing(
    nodes: Seq<CelestialNode>,
    frames: Map<u64, u64>,
    eid: u64,
    b: int,
    entry: Entry,
)
    requires
        0 <= b < nodes.len(),
        frames.contains_key(eid) ==> forall|j: int|
            0 <= j < nodes.len() ==> (#[trigger] nodes[j]).key != frames[eid],
        is_entry(entry, nodes, b, seam_from(nodes, frames, eid, b)),
    ensures
        entry is Stay,
{
    if frames.contains_key(eid) {
        lemma_first_place(keys_of(nodes), frames[eid]);
        let p = first_place(keys_of(nodes), frames[eid]);
        if p < nodes.len() {
            assert(keys_of(nodes)[p] == nodes[p].key);
        }
    }
}

/// While a coast crosses into no frame it is remembered by the same number, even
/// where the body of that number is gone: should it come back, the coast goes on
/// round it.
pub proof fn law_a_coast_remembers_its_body(
    nodes: Seq<CelestialNode>,
    coasts: Map<u64, u64>,
    eid: u64,
    frame: int,
    crossed: bool,
)
    requires
        coasts.contains_key(eid),
    ensures
        !crossed ==> settled_key(nodes, coasts, eid, frame, crossed) == coasts[eid],
        crossed ==> settled_key(nodes, coasts, eid, frame, crossed) == nodes[frame].key,
{
}

/// A ship flies where time is warped, it stands on nothing, it is clear of the surface and it
/// moves; and then it coasts exactly where the body that it belongs to has mass. A conic is
/// taken exactly where it had none, in the frame of that body.
pub proof fn law_a_flying_ship_coasts_round_what_has_mass(
    nodes: Seq<CelestialNode>,
    coasts: Map<u64, u64>,
    eid: u64,
    dom: usize,
    flight: Flight,
)
    requires
        dom < nodes.len() <= usize::MAX,
        !flight.grounded,
        flight.clear,
        flight.moving,
    ensures
        ({
            let step = flight_step(nodes, coasts, eid, dom, is_flying(true, flight));
            &&& step is Coast <==> nodes[dom as int].heavy
            &&& step matches FlightStep::Coast { frame, capture } ==> {
                &&& frame < nodes.len()
                &&& capture <==> !coasts.contains_key(eid)
                &&& capture ==> nodes[frame as int].key == nodes[dom as int].key
                &&& !capture && keys_of(nodes).contains(coasts[eid]) ==> nodes[frame as int].key
                    == coasts[eid]
                &&& !capture && !keys_of(nodes).contains(coasts[eid]) ==> frame == dom
            }
        }),
{
    lemma_first_place(keys_of(nodes), nodes[dom as int].key);
    assert(keys_of(nodes)[dom as int] == nodes[dom as int].key);
    assert(keys_of(nodes).contains(nodes[dom as int].key));
    if coasts.contains_key(eid) {
        lemma_first_place(keys_of(nodes), coasts[eid]);
        let j = first_place(keys_of(nodes), coasts[eid]);
        if j < nodes.len() {
            assert(keys_of(nodes)[j] == nodes[j].key);
            assert(keys_of(nodes).contains(coasts[eid]));
        }
    }
    let j = first_place(keys_of(nodes), nodes[dom as int].key);
    assert(keys_of(nodes)[j] == nodes[j].key);
}

/// A coast of which nothing was remembered is remembered by the body in whose frame it is.
pub proof fn law_a_new_coast_is_remembered_by_its_frame(
    nodes: Seq<CelestialNode>,
    coasts: Map<u64, u64>,
    eid: u64,
    frame: int,
    crossed: bool,
)
    requires
        !coasts.contains_key(eid),
    ensures
        settled_key(nodes, coasts, eid, frame, crossed) == nodes[frame].key,
{
}

// ---- what a tick writes ----------------------------------------------------

/// Is there anything to do at a tick? Only while the game plays, and only with
/// celestial bodies.
pub fn rails_run(playing: bool, bodies: usize) -> (out: bool)
    ensures
        out == (playing && bodies > 0),
{
    playing && bodies > 0
}

/// What a tick writes of a celestial body.
#[derive(Clone, Copy, Debug, PartialEq, Eq, Structural)]
pub struct BodyWrite {
    /// Its node is put where its orbit says.
    pub node: bool,
    /// The collider of its terrain is put there too.
    pub anchor: bool,
}

/// What a tick writes of each celestial body. The one in the middle stays where
/// the scene has it. `terrains` says which of them have terrain, and `simulated`
/// whether there is a simulation in which it is solid.
pub fn body_writes(root: usize, terrains: &Vec<bool>, simulated: bool) -> (out: Vec<BodyWrite>)
    ensures
        out@ == Seq::new(
            terrains@.len(),
            |i: int| BodyWrite { node: i != root, anchor: terrains@[i] && simulated },
        ),
{
    let mut out: Vec<BodyWrite> = Vec::new();
    let mut i: usize = 0;
    while i < terrains.len()
        invariant
            i <= terrains@.len(),
            out@ == Seq::new(
                i as nat,
                |k: int| BodyWrite { node: k != root, anchor: terrains@[k] && simulated },
            ),
        decreases terrains@.len() - i,
    {
        out.push(BodyWrite { node: i != root, anchor: terrains[i] && simulated });
        i += 1;
    }
    out
}

// ---- what stands on a body -------------------------------------------------

/// How far up a node is looked for a body that carries it.
pub const MAX_DEPTH: u32 = 64;

/// The body that carries a node: the nearest of the nodes above it that is one,
/// within so many steps.
pub open spec fn carrier_above(
    parents: Map<u64, u64>,
    keys: Seq<u64>,
    node: u64,
    steps: int,
) -> Option<int>
    decreases steps,
{
    if steps <= 0 || !parents.contains_key(node) {
        None
    } else {
        let up = parents[node];
        if first_place(keys, up) < keys.len() {
            Some(first_place(keys, up))
        } else {
            carrier_above(parents, keys, up, steps - 1)
        }
    }
}

/// The body that carries what stands on it, at any depth below it.
pub fn carried_by(parents: &HashMap<u64, u64>, keys: &Vec<u64>, node: u64) -> (out: Option<usize>)
    ensures
        match out {
            Some(j) => carrier_above(parents@, keys@, node, MAX_DEPTH as int) == Some(j as int),
            None => carrier_above(parents@, keys@, node, MAX_DEPTH as int) is None,
        },
{
    let mut at: u64 = node;
    let mut left: u32 = MAX_DEPTH;
    while left > 0
        invariant
            left <= MAX_DEPTH,
            carrier_above(parents@, keys@, node, MAX_DEPTH as int) == carrier_above(
                parents@,
                keys@,
                at,
                left as int,
            ),
        decreases left,
    {
        match parents.get(&at) {
            Some(up) => {
                let j: usize = place_of(keys, *up);
                if j < keys.len() {
                    return Some(j);
                }
                at = *up;
            },
            None => {
                return None;
            },
        }
        left -= 1;
    }
    None
}

/// The colliders of nodes that are shifted, each with the body that it moves along
/// with: those that stand on a body which has moved, in the order of `nodes`.
pub open spec fn shift_list(
    parents: Map<u64, u64>,
    keys: Seq<u64>,
    moved: Seq<bool>,
    nodes: Seq<u64>,
) -> Seq<(u64, int)>
    decreases nodes.len(),
{
    if nodes.len() == 0 {
        seq![]
    } else {
        let rest = shift_list(parents, keys, moved, nodes.drop_last());
        match carrier_above(parents, keys, nodes.last(), MAX_DEPTH as int) {
            Some(j) => if moved[j] {
                rest.push((nodes.last(), j))
            } else {
                rest
            },
            None => rest,
        }
    }
}

/// A node and the place of a body.
pub open spec fn shift_model(s: (u64, usize)) -> (u64, int) {
    (s.0, s.1 as int)
}

/// The colliders that are shifted, out of the nodes that do not move by
/// themselves. `moved` says of each celestial body whether it has moved this tick.
/// All others are left alone.
pub fn shifts(
    parents: &HashMap<u64, u64>,
    keys: &Vec<u64>,
    moved: &Vec<bool>,
    nodes: &Vec<u64>,
) -> (out: Vec<(u64, usize)>)
    requires
        moved@.len() == keys@.len(),
    ensures
        out@.map_values(|s: (u64, usize)| shift_model(s)) == shift_list(
            parents@,
            keys@,
            moved@,
            nodes@,
        ),
{
    let mut out: Vec<(u64, usize)> = Vec::new();
    let mut i: usize = 0;
    assert(out@.map_values(|s: (u64, usize)| shift_model(s)) =~= seq![]);
    while i < nodes.len()
        invariant
            i <= nodes@.len(),
            moved@.len() == keys@.len(),
            out@.map_values(|s: (u64, usize)| shift_model(s)) == shift_list(
                parents@,
                keys@,
                moved@,
                nodes@.take(i as int),
            ),
        decreases nodes@.len() - i,
    {
        proof {
            assert(nodes@.take(i + 1).drop_last() =~= nodes@.take(i as int));
            lemma_carrier_above(parents@, keys@, nodes@[i as int], MAX_DEPTH as int);
        }
        if let Some(j) = carried_by(parents, keys, nodes[i]) {
            if moved[j] {
                let ghost was = out@;
                out.push((nodes[i], j));
                assert(out@.map_values(|s: (u64, usize)| shift_model(s)) =~= was.map_values(
                    |s: (u64, usize)| shift_model(s),
                ).push((nodes@[i as int], j as int)));
            }
        }
        i += 1;
    }
    assert(nodes@.take(nodes@.len() as int) =~= nodes@);
    out
}

/// What carries a node is one of the bodies.
proof fn lemma_carrier_above(parents: Map<u64, u64>, keys: Seq<u64>, node: u64, steps: int)
    ensures
        carrier_above(parents, keys, node, steps) matches Some(j) ==> 0 <= j < keys.len(),
    decreases steps,
{
    if steps > 0 && parents.contains_key(node) {
        lemma_first_place(keys, parents[node]);
        lemma_carrier_above(parents, keys, parents[node], steps - 1);
    }
}

/// A collider is shifted only along with the body that its node stands on.
pub proof fn law_nothing_is_shifted_alone(
    parents: Map<u64, u64>,
    keys: Seq<u64>,
    moved: Seq<bool>,
    nodes: Seq<u64>,
    i: int,
)
    requires
        0 <= i < shift_list(parents, keys, moved, nodes).len(),
    ensures
        nodes.contains(shift_list(parents, keys, moved, nodes)[i].0),
        ({
            let s = shift_list(parents, keys, moved, nodes)[i];
            carrier_above(parents, keys, s.0, MAX_DEPTH as int) == Some(s.1) && moved[s.1]
        }),
    decreases nodes.len(),
{
    let rest = shift_list(parents, keys, moved, nodes.drop_last());
    if i < rest.len() {
        law_nothing_is_shifted_alone(parents, keys, moved, nodes.drop_last(), i);
        let at = choose|k: int|
            0 <= k < nodes.drop_last().len() && nodes.drop_last()[k] == rest[i].0;
        assert(nodes[at] == rest[i].0);
    } else {
        assert(nodes[nodes.len() - 1] == nodes.last());
    }
}

/// What stands on a body directly is carried by that body; what stands on anything else is
/// carried by what carries that; and what stands on nothing by nothing.
pub proof fn law_what_stands_on_a_body_is_carried(
    parents: Map<u64, u64>,
    keys: Seq<u64>,
    node: u64,
    steps: int,
)
    requires
        steps > 0,
    ensures
        !parents.contains_key(node) ==> carrier_above(parents, keys, node, steps) is None,
        parents.contains_key(node) && keys.contains(parents[node]) ==> (carrier_above(
            parents,
            keys,
            node,
            steps,
        ) matches Some(j) && 0 <= j < keys.len() && keys[j] == parents[node]),
        parents.contains_key(node) && !keys.contains(parents[node]) ==> carrier_above(
            parents,
            keys,
            node,
            steps,
        ) == carrier_above(parents, keys, parents[node], steps - 1),
{
    if parents.contains_key(node) {
        lemma_first_place(keys, parents[node]);
    }
}

/// Looking further up never finds another body than the nearest.
pub proof fn law_the_nearest_body_carries(
    parents: Map<u64, u64>,
    keys: Seq<u64>,
    node: u64,
    steps: int,
    more: int,
)
    requires
        steps <= more,
        carrier_above(parents, keys, node, steps) is Some,
    ensures
        carrier_above(parents, keys, node, more) == carrier_above(parents, keys, node, steps),
    decreases steps,
{
    if first_place(keys, parents[node]) >= keys.len() {
        law_the_nearest_body_carries(parents, keys, parents[node], steps - 1, more - 1);
    }
}

/// Every collider whose node stands on a body that has moved is shifted, in the order of the
/// nodes.
pub proof fn law_all_that_stands_on_a_body_is_shifted(
    parents: Map<u64, u64>,
    keys: Seq<u64>,
    moved: Seq<bool>,
    nodes: Seq<u64>,
    k: int,
)
    requires
        0 <= k < nodes.len(),
    ensures
        carrier_above(parents, keys, nodes[k], MAX_DEPTH as int) matches Some(j) ==> (moved[j] ==>
            shift_list(parents, keys, moved, nodes).contains((nodes[k], j))),
        shift_list(parents, keys, moved, nodes.drop_last()).is_prefix_of(
            shift_list(parents, keys, moved, nodes),
        ),
    decreases nodes.len(),
{
    let rest = shift_list(parents, keys, moved, nodes.drop_last());
    let all = shift_list(parents, keys, moved, nodes);
    if let Some(j) = carrier_above(parents, keys, nodes[k], MAX_DEPTH as int) {
        if moved[j] {
            if k == nodes.len() - 1 {
                assert(all[all.len() - 1] == (nodes[k], j));
            } else {
                law_all_that_stands_on_a_body_is_shifted(
                    parents,
                    keys,
                    moved,
                    nodes.drop_last(),
                    k,
                );
                let at = choose|at: int| 0 <= at < rest.len() && rest[at] == (nodes[k], j);
                assert(all[at] == rest[at]);
            }
        }
    }
}

/// A body that says how far its sphere reaches is taken at its word; any other has it from the
/// orbit round its parent, and one without a parent has no end.
pub proof fn law_a_sphere_is_the_bodys_own_word(says_one: bool, parent: Option<usize>, out: SphereRule)
    requires
        call_ensures(sphere_rule, (says_one, parent), out),
    ensures
        out is Own <==> says_one,
        out is Endless <==> !says_one && parent is None,
        out matches SphereRule::FromOrbit { round } ==> parent == Some(round),
        !says_one && parent is Some ==> out is FromOrbit,
{
}

/// Every body but the root is put where its orbit says, and a collider only where there is
/// terrain and it is simulated.
pub proof fn law_every_body_but_the_root_is_moved(
    root: usize,
    terrains: &Vec<bool>,
    simulated: bool,
    out: Vec<BodyWrite>,
    i: int,
)
    requires
        call_ensures(body_writes, (root, terrains, simulated), out),
        0 <= i < terrains@.len(),
    ensures
        out@.len() == terrains@.len(),
        out@[i].node <==> i != root,
        out@[i].anchor <==> terrains@[i] && simulated,
{
}

/// Bodies are moved only while the game is played, and where there are any.
pub proof fn law_rails_run_in_play(playing: bool, bodies: usize, out: bool)
    requires
        call_ensures(rails_run, (playing, bodies), out),
    ensures
        out ==> playing && bodies > 0,
        playing && bodies > 0 ==> out,
{
}

/// Nothing coasts once time is no longer warped, and what belongs to a body stays with it.
pub proof fn law_nothing_coasts_out_of_warp(s: &mut Rails, warping: bool, ship: u64)
    requires
        call_ensures(Rails::begin_tick, (s, warping), ()),
    ensures
        final(s).coasts@.contains_key(ship) ==> warping && old(s).coasts@.contains_key(ship)
            && final(s).coasts@[ship] == old(s).coasts@[ship],
        warping && old(s).coasts@.contains_key(ship) ==> final(s).coasts@.contains_key(ship),
        final(s).frames@ == old(s).frames@,
{
}

/// A crossing is looked for only where the walk ends in another frame, and not for ever: each
/// look counts, and there is an end to them. Looking does not cross.
pub proof fn law_crossings_are_looked_for_so_often(s: &mut CoastWalk, end: usize, out: bool)
    requires
        old(s).hops <= MAX_HOPS,
        call_ensures(CoastWalk::looks_for_crossing, (s, end), out),
    ensures
        out ==> end != old(s).frame && final(s).hops == old(s).hops + 1,
        !out ==> *final(s) == *old(s) && (end == old(s).frame || old(s).hops == MAX_HOPS),
        final(s).hops <= MAX_HOPS,
        final(s).frame == old(s).frame && final(s).crossed == old(s).crossed,
{
}

/// Where nothing dominates the root does; anywhere else it is the body whose sphere that is.
pub proof fn law_the_root_dominates_elsewhere(spheres: &Vec<Sphere>, root: usize, out: usize)
    requires
        call_ensures(dominant_at, (spheres, root), out),
    ensures
        is_nowhere(ended(spheres@)) ==> out == root,
        !is_nowhere(ended(spheres@)) ==> is_dominant(ended(spheres@), out as int),
{
}

/// Whatever enters a frame belongs to it from then on, and nothing else does for that; what
/// coasts in warp stays where it is. A compound enters as anything else does out of warp.
pub proof fn law_what_enters_belongs_to_its_body(
    s: &mut Rails,
    nodes: &Vec<CelestialNode>,
    eid: u64,
    dom: usize,
    warping: bool,
    out: Entry,
    c: &mut Rails,
    compound: Entry,
    other: u64,
)
    requires
        dom < nodes@.len(),
        call_ensures(Rails::enter, (s, nodes, eid, dom, warping), out),
        call_ensures(Rails::enter_compound, (c, nodes, eid, dom), compound),
        old(c).frames@ == old(s).frames@,
    ensures
        final(s).coasts@ == old(s).coasts@,
        warping && old(s).coasts@.contains_key(eid) ==> out is Stay && final(s).frames@ == old(
            s,
        ).frames@,
        !(warping && old(s).coasts@.contains_key(eid)) ==> final(s).frames@.contains_key(eid) && final(
            s).frames@[eid] == nodes@[dom as int].key && final(s).frames@ == final(c).frames@,
        other != eid ==> final(s).frames@.contains_key(other) == old(s).frames@.contains_key(other)
            && (old(s).frames@.contains_key(other) ==> final(s).frames@[other] == old(
            s,
        ).frames@[other]),
        final(c).frames@.contains_key(eid) && final(c).coasts@ == old(c).coasts@,
{
}

/// A ship that flies coasts round the body that it was captured by, and one that does not is
/// carried and coasts no more; no other ship is touched, and what belongs to a body stays so.
pub proof fn law_flying_touches_one_ship(
    s: &mut Rails,
    nodes: &Vec<CelestialNode>,
    eid: u64,
    dom: usize,
    warping: bool,
    flight: Flight,
    out: FlightStep,
    other: u64,
)
    requires
        dom < nodes@.len(),
        call_ensures(Rails::fly, (s, nodes, eid, dom, warping, flight), out),
    ensures
        final(s).frames@ == old(s).frames@,
        out is Carry ==> !final(s).coasts@.contains_key(eid),
        out matches FlightStep::Coast { frame, capture } ==> frame < nodes@.len() && (capture
            ==> final(s).coasts@.contains_key(eid) && final(s).coasts@[eid] == nodes@[dom as int].key)
            && (!capture ==> final(s).coasts@ == old(s).coasts@),
        other != eid ==> final(s).coasts@.contains_key(other) == old(s).coasts@.contains_key(other)
            && (old(s).coasts@.contains_key(other) ==> final(s).coasts@[other] == old(
            s,
        ).coasts@[other]),
{
}

/// A ship that settles is dropped where the ground under it is not there yet and it comes close,
/// or where it is too low; then it coasts no more. Any other is placed and coasts on round the
/// body that it belongs to. No other ship is touched.
pub proof fn law_a_ship_is_dropped_near_the_ground(
    s: &mut Rails,
    nodes: &Vec<CelestialNode>,
    eid: u64,
    frame: usize,
    crossed: bool,
    cold: bool,
    closing: bool,
    low: bool,
    out: Settled,
    other: u64,
)
    requires
        frame < nodes@.len(),
        call_ensures(Rails::settle, (s, nodes, eid, frame, crossed, cold, closing, low), out),
    ensures
        out is Dropped <==> (cold && closing) || low,
        out is Dropped ==> !final(s).coasts@.contains_key(eid),
        out is Place ==> final(s).coasts@.contains_key(eid) && final(s).coasts@[eid] == final(
            s).frames@[eid],
        final(s).frames@.contains_key(eid),
        other != eid ==> final(s).coasts@.contains_key(other) == old(s).coasts@.contains_key(other)
            && final(s).frames@.contains_key(other) == old(s).frames@.contains_key(other),
        other != eid && old(s).coasts@.contains_key(other) ==> final(s).coasts@[other] == old(
            s,
        ).coasts@[other],
        other != eid && old(s).frames@.contains_key(other) ==> final(s).frames@[other] == old(
            s,
        ).frames@[other],
{
}

/// A walk crosses only into the frame of another body that is heavy, and then goes on there;
/// it enters a body that goes round the one it leaves.
pub proof fn law_a_walk_crosses_into_heavy_bodies(
    s: &mut CoastWalk,
    nodes: &Vec<CelestialNode>,
    parents: &Vec<Option<usize>>,
    to: usize,
    out: Crossing,
)
    requires
        old(s).frame < nodes@.len(),
        to < nodes@.len(),
        parents@.len() == nodes@.len(),
        call_ensures(CoastWalk::cross, (s, nodes, parents, to), out),
    ensures
        out is Handoff <==> to != old(s).frame && nodes@[to as int].heavy,
        out is Handoff ==> final(s).frame == to && final(s).crossed,
        out matches Crossing::Handoff { to: t, line } ==> t == to && (parents@[to as int] == Some(
            old(s).frame,
        ) ==> line_model(line) == entered(nodes@[to as int].name@)) && (parents@[to as int] != Some(
            old(s).frame,
        ) ==> line_model(line) == left(nodes@[old(s).frame as int].name@)),
        out is Keep ==> *final(s) == *old(s),
        final(s).hops == old(s).hops,
{
}

} // verus!
