//! What is marked in the Scene view: which kinds of marks are switched on, and
//! how bones, joints, corners, tiles and probes are drawn.

use crate::scene_tab::Rgba;
use vstd::prelude::*;

verus! {

// ---- which marks are drawn -------------------------------------------------

/// The kinds of marks that can be switched off one by one.
#[derive(Clone, Copy, Debug, PartialEq, Eq, Structural)]
pub struct GizmoFilter {
    pub cameras: bool,
    pub lights: bool,
    pub physics: bool,
    pub colliders: bool,
    pub particles: bool,
    pub volumes: bool,
    pub audio: bool,
    pub bones: bool,
    pub script: bool,
}

/// Every kind is drawn.
pub open spec fn all_on() -> GizmoFilter {
    GizmoFilter {
        cameras: true,
        lights: true,
        physics: true,
        colliders: true,
        particles: true,
        volumes: true,
        audio: true,
        bones: true,
        script: true,
    }
}

impl Default for GizmoFilter {
    fn default() -> (out: Self)
        ensures
            out == all_on(),
    {
        GizmoFilter {
            cameras: true,
            lights: true,
            physics: true,
            colliders: true,
            particles: true,
            volumes: true,
            audio: true,
            bones: true,
            script: true,
        }
    }
}

/// A kind of marks.
#[derive(Clone, Copy, Debug, PartialEq, Eq, Structural)]
pub enum GizmoKind {
    Cameras,
    Lights,
    Physics,
    Colliders,
    Particles,
    Volumes,
    Audio,
    Bones,
    Script,
}

/// The switches over the marks.
#[derive(Clone, Copy, Debug, PartialEq, Eq, Structural)]
pub struct GizmoSwitches {
    /// Are any drawn?
    pub show: bool,
    pub filter: GizmoFilter,
    /// Are those of scripts drawn over the game too?
    pub in_game: bool,
}

/// A use of one of the switches.
#[derive(Clone, Copy, Debug, PartialEq, Eq, Structural)]
pub enum GizmoClick {
    Show(bool),
    Kind { kind: GizmoKind, on: bool },
    InGame(bool),
    AllOn,
}

/// The kinds with one of them switched.
pub open spec fn switched(f: GizmoFilter, kind: GizmoKind, on: bool) -> GizmoFilter {
    match kind {
        GizmoKind::Cameras => GizmoFilter { cameras: on, ..f },
        GizmoKind::Lights => GizmoFilter { lights: on, ..f },
        GizmoKind::Physics => GizmoFilter { physics: on, ..f },
        GizmoKind::Colliders => GizmoFilter { colliders: on, ..f },
        GizmoKind::Particles => GizmoFilter { particles: on, ..f },
        GizmoKind::Volumes => GizmoFilter { volumes: on, ..f },
        GizmoKind::Audio => GizmoFilter { audio: on, ..f },
        GizmoKind::Bones => GizmoFilter { bones: on, ..f },
        GizmoKind::Script => GizmoFilter { script: on, ..f },
    }
}

/// Is a kind among those that are drawn?
pub open spec fn is_on(f: GizmoFilter, kind: GizmoKind) -> bool {
    match kind {
        GizmoKind::Cameras => f.cameras,
        GizmoKind::Lights => f.lights,
        GizmoKind::Physics => f.physics,
        GizmoKind::Colliders => f.colliders,
        GizmoKind::Particles => f.particles,
        GizmoKind::Volumes => f.volumes,
        GizmoKind::Audio => f.audio,
        GizmoKind::Bones => f.bones,
        GizmoKind::Script => f.script,
    }
}

/// The switches after one of them was used. The kinds can only be chosen while
/// marks are drawn at all, and those of scripts be drawn over the game only while
/// they are drawn.
pub open spec fn after_click(s: GizmoSwitches, c: GizmoClick) -> GizmoSwitches {
    match c {
        GizmoClick::Show(on) => GizmoSwitches { show: on, ..s },
        GizmoClick::Kind { kind, on } => if s.show {
            GizmoSwitches { filter: switched(s.filter, kind, on), ..s }
        } else {
            s
        },
        GizmoClick::InGame(on) => if s.show && s.filter.script {
            GizmoSwitches { in_game: on, ..s }
        } else {
            s
        },
        GizmoClick::AllOn => if s.show {
            GizmoSwitches { filter: all_on(), ..s }
        } else {
            s
        },
    }
}

/// The kinds with one of them switched.
fn with_kind(f: GizmoFilter, kind: GizmoKind, on: bool) -> (out: GizmoFilter)
    ensures
        out == switched(f, kind, on),
{
    match kind {
        GizmoKind::Cameras => GizmoFilter { cameras: on, ..f },
        GizmoKind::Lights => GizmoFilter { lights: on, ..f },
        GizmoKind::Physics => GizmoFilter { physics: on, ..f },
        GizmoKind::Colliders => GizmoFilter { colliders: on, ..f },
        GizmoKind::Particles => GizmoFilter { particles: on, ..f },
        GizmoKind::Volumes => GizmoFilter { volumes: on, ..f },
        GizmoKind::Audio => GizmoFilter { audio: on, ..f },
        GizmoKind::Bones => GizmoFilter { bones: on, ..f },
        GizmoKind::Script => GizmoFilter { script: on, ..f },
    }
}

impl GizmoSwitches {
    /// Uses one of the switches.
    pub fn click(&mut self, c: GizmoClick)
        ensures
            *final(self) == after_click(*old(self), c),
    {
        match c {
            GizmoClick::Show(on) => {
                self.show = on;
            },
            GizmoClick::Kind { kind, on } => {
                if self.show {
                    self.filter = with_kind(self.filter, kind, on);
                }
            },
            GizmoClick::InGame(on) => {
                if self.show && self.filter.script {
                    self.in_game = on;
                }
            },
            GizmoClick::AllOn => {
                if self.show {
                    self.filter = GizmoFilter::default();
                }
            },
        }
    }

    /// Is a kind drawn?
    pub fn draws(&self, kind: GizmoKind) -> (out: bool)
        ensures
            out == (self.show && is_on(self.filter, kind)),
    {
        self.show && match kind {
            GizmoKind::Cameras => self.filter.cameras,
            GizmoKind::Lights => self.filter.lights,
            GizmoKind::Physics => self.filter.physics,
            GizmoKind::Colliders => self.filter.colliders,
            GizmoKind::Particles => self.filter.particles,
            GizmoKind::Volumes => self.filter.volumes,
            GizmoKind::Audio => self.filter.audio,
            GizmoKind::Bones => self.filter.bones,
            GizmoKind::Script => self.filter.script,
        }
    }
}

/// A kind that is switched is as it was switched, and no other kind changes.
pub proof fn law_a_switch_is_its_own(f: GizmoFilter, kind: GizmoKind, on: bool, other: GizmoKind)
    ensures
        is_on(switched(f, kind, on), kind) == on,
        other != kind ==> is_on(switched(f, kind, on), other) == is_on(f, other),
        is_on(all_on(), kind),
{
}

/// Hiding the marks forgets nothing: shown again, they are those that were drawn.
pub proof fn law_hiding_forgets_nothing(s: GizmoSwitches, c: GizmoClick)
    requires
        s.show,
        !(c is Show),
    ensures
        after_click(
            after_click(after_click(s, GizmoClick::Show(false)), c),
            GizmoClick::Show(true),
        ) == s,
{
}

/// A switch does what it says and nothing else. The kinds can be chosen only while marks are
/// shown, and those of scripts be drawn over the game only while they are among them.
pub proof fn law_a_click_switches_one_thing(s: GizmoSwitches, c: GizmoClick, k: GizmoKind)
    ensures
        ({
            let t = after_click(s, c);
            &&& c matches GizmoClick::Show(on) ==> t.show == on
            &&& !(c is Show) ==> t.show == s.show
            &&& c matches GizmoClick::InGame(on) ==> (s.show && s.filter.script ==> t.in_game == on)
            &&& !(c is InGame) || !s.show || !s.filter.script ==> t.in_game == s.in_game
            &&& c matches GizmoClick::Kind { kind, on } ==> (s.show ==> is_on(t.filter, k) == if k
                == kind {
                on
            } else {
                is_on(s.filter, k)
            })
            &&& c is AllOn && s.show ==> is_on(t.filter, k)
            &&& c is Show || c is InGame || !s.show ==> t.filter == s.filter
        }),
{
}

// ---- bones -----------------------------------------------------------------

/// A corner of the shape of a bone: its head, one of the four of its belt, or its
/// tail.
#[derive(Clone, Copy, Debug, PartialEq, Eq, Structural)]
pub enum BoneCorner {
    Head,
    Belt(u8),
    Tail,
}

/// The corner of the belt behind `k`.
pub open spec fn next_belt(k: int) -> int {
    (k + 1) % 4
}

/// The edges of a bone at the corner `k` of its belt: to the head, along the belt,
/// and to the tail.
pub open spec fn edges_at(k: int) -> Seq<(BoneCorner, BoneCorner)> {
    seq![
        (BoneCorner::Head, BoneCorner::Belt(k as u8)),
        (BoneCorner::Belt(k as u8), BoneCorner::Belt(next_belt(k) as u8)),
        (BoneCorner::Belt(k as u8), BoneCorner::Tail),
    ]
}

/// The edges of a bone.
pub open spec fn bone_edges() -> Seq<(BoneCorner, BoneCorner)> {
    edges_at(0) + edges_at(1) + edges_at(2) + edges_at(3)
}

/// The edges of a bone, in the order in which they are drawn.
pub fn bone_outline() -> (out: Vec<(BoneCorner, BoneCorner)>)
    ensures
        out@ == bone_edges(),
{
    let mut out: Vec<(BoneCorner, BoneCorner)> = Vec::new();
    let mut k: u8 = 0;
    let ghost mut done: Seq<(BoneCorner, BoneCorner)> = Seq::empty();
    while k < 4
        invariant
            k <= 4,
            out@ == done,
            k == 0 ==> done == Seq::<(BoneCorner, BoneCorner)>::empty(),
            k == 1 ==> done == edges_at(0),
            k == 2 ==> done == edges_at(0) + edges_at(1),
            k == 3 ==> done == edges_at(0) + edges_at(1) + edges_at(2),
            k == 4 ==> done == bone_edges(),
        decreases 4 - k,
    {
        let next: u8 = if k == 3 {
            0
        } else {
            k + 1
        };
        out.push((BoneCorner::Head, BoneCorner::Belt(k)));
        out.push((BoneCorner::Belt(k), BoneCorner::Belt(next)));
        out.push((BoneCorner::Belt(k), BoneCorner::Tail));
        proof {
            done = done + edges_at(k as int);
            assert(next == next_belt(k as int));
            assert(out@ =~= done);
            if k == 0 {
                assert(done =~= edges_at(0));
            }
        }
        k += 1;
    }
    out
}

/// The faces of a bone at the corner `k` of its belt.
pub open spec fn faces_at(k: int) -> Seq<(BoneCorner, BoneCorner, BoneCorner)> {
    seq![
        (BoneCorner::Head, BoneCorner::Belt(k as u8), BoneCorner::Belt(next_belt(k) as u8)),
        (BoneCorner::Tail, BoneCorner::Belt(k as u8), BoneCorner::Belt(next_belt(k) as u8)),
    ]
}

/// The faces of a bone that are filled: all of a selected one, none of another.
pub open spec fn filled_faces(selected: bool) -> Seq<(BoneCorner, BoneCorner, BoneCorner)> {
    if selected {
        faces_at(0) + faces_at(1) + faces_at(2) + faces_at(3)
    } else {
        Seq::empty()
    }
}

/// The faces of a bone that are filled, in the order in which they are drawn.
pub fn bone_faces(selected: bool) -> (out: Vec<(BoneCorner, BoneCorner, BoneCorner)>)
    ensures
        out@ == filled_faces(selected),
{
    let mut out: Vec<(BoneCorner, BoneCorner, BoneCorner)> = Vec::new();
    if !selected {
        assert(out@ =~= filled_faces(false));
        return out;
    }
    let mut k: u8 = 0;
    let ghost mut done: Seq<(BoneCorner, BoneCorner, BoneCorner)> = Seq::empty();
    while k < 4
        invariant
            k <= 4,
            out@ == done,
            k == 0 ==> done == Seq::<(BoneCorner, BoneCorner, BoneCorner)>::empty(),
            k == 1 ==> done == faces_at(0),
            k == 2 ==> done == faces_at(0) + faces_at(1),
            k == 3 ==> done == faces_at(0) + faces_at(1) + faces_at(2),
            k == 4 ==> done == filled_faces(true),
        decreases 4 - k,
    {
        let next: u8 = if k == 3 {
            0
        } else {
            k + 1
        };
        out.push((BoneCorner::Head, BoneCorner::Belt(k), BoneCorner::Belt(next)));
        out.push((BoneCorner::Tail, BoneCorner::Belt(k), BoneCorner::Belt(next)));
        proof {
            done = done + faces_at(k as int);
            assert(next == next_belt(k as int));
            assert(out@ =~= done);
            if k == 0 {
                assert(done =~= faces_at(0));
            }
        }
        k += 1;
    }
    out
}

/// Is there an edge between two corners, whichever of them it starts at?
pub open spec fn is_edge(a: BoneCorner, b: BoneCorner) -> bool {
    bone_edges().contains((a, b)) || bone_edges().contains((b, a))
}

/// Every side of a face that is filled is drawn as an edge.
pub proof fn law_every_face_is_outlined(f: int)
    requires
        0 <= f < filled_faces(true).len(),
    ensures
        ({
            let face = filled_faces(true)[f];
            is_edge(face.0, face.1) && is_edge(face.1, face.2) && is_edge(face.2, face.0)
        }),
{
    let e = bone_edges();
    assert(e[0] == (BoneCorner::Head, BoneCorner::Belt(0)));
    assert(e[1] == (BoneCorner::Belt(0), BoneCorner::Belt(1)));
    assert(e[2] == (BoneCorner::Belt(0), BoneCorner::Tail));
    assert(e[3] == (BoneCorner::Head, BoneCorner::Belt(1)));
    assert(e[4] == (BoneCorner::Belt(1), BoneCorner::Belt(2)));
    assert(e[5] == (BoneCorner::Belt(1), BoneCorner::Tail));
    assert(e[6] == (BoneCorner::Head, BoneCorner::Belt(2)));
    assert(e[7] == (BoneCorner::Belt(2), BoneCorner::Belt(3)));
    assert(e[8] == (BoneCorner::Belt(2), BoneCorner::Tail));
    assert(e[9] == (BoneCorner::Head, BoneCorner::Belt(3)));
    assert(e[10] == (BoneCorner::Belt(3), BoneCorner::Belt(0)));
    assert(e[11] == (BoneCorner::Belt(3), BoneCorner::Tail));
    let s = filled_faces(true);
    assert(s[0] == (BoneCorner::Head, BoneCorner::Belt(0), BoneCorner::Belt(1)));
    assert(s[1] == (BoneCorner::Tail, BoneCorner::Belt(0), BoneCorner::Belt(1)));
    assert(s[2] == (BoneCorner::Head, BoneCorner::Belt(1), BoneCorner::Belt(2)));
    assert(s[3] == (BoneCorner::Tail, BoneCorner::Belt(1), BoneCorner::Belt(2)));
    assert(s[4] == (BoneCorner::Head, BoneCorner::Belt(2), BoneCorner::Belt(3)));
    assert(s[5] == (BoneCorner::Tail, BoneCorner::Belt(2), BoneCorner::Belt(3)));
    assert(s[6] == (BoneCorner::Head, BoneCorner::Belt(3), BoneCorner::Belt(0)));
    assert(s[7] == (BoneCorner::Tail, BoneCorner::Belt(3), BoneCorner::Belt(0)));
}

/// A bone has an edge from its head and one to its tail at each corner of its belt, and one to
/// the next corner round it; no two are the same, and no edge is of one corner.
pub proof fn law_a_bone_has_twelve_edges(k: int)
    requires
        0 <= k < 4,
    ensures
        bone_edges().len() == 12,
        bone_edges().no_duplicates(),
        is_edge(BoneCorner::Head, BoneCorner::Belt(k as u8)),
        is_edge(BoneCorner::Belt(k as u8), BoneCorner::Tail),
        is_edge(
            BoneCorner::Belt(k as u8),
            BoneCorner::Belt(if k == 3 {
                0u8
            } else {
                (k + 1) as u8
            }),
        ),
        !is_edge(BoneCorner::Head, BoneCorner::Tail),
{
    let e = bone_edges();
    assert(e[0] == (BoneCorner::Head, BoneCorner::Belt(0)));
    assert(e[1] == (BoneCorner::Belt(0), BoneCorner::Belt(1)));
    assert(e[2] == (BoneCorner::Belt(0), BoneCorner::Tail));
    assert(e[3] == (BoneCorner::Head, BoneCorner::Belt(1)));
    assert(e[4] == (BoneCorner::Belt(1), BoneCorner::Belt(2)));
    assert(e[5] == (BoneCorner::Belt(1), BoneCorner::Tail));
    assert(e[6] == (BoneCorner::Head, BoneCorner::Belt(2)));
    assert(e[7] == (BoneCorner::Belt(2), BoneCorner::Belt(3)));
    assert(e[8] == (BoneCorner::Belt(2), BoneCorner::Tail));
    assert(e[9] == (BoneCorner::Head, BoneCorner::Belt(3)));
    assert(e[10] == (BoneCorner::Belt(3), BoneCorner::Belt(0)));
    assert(e[11] == (BoneCorner::Belt(3), BoneCorner::Tail));
}

/// A selected bone is filled all round, with a face to the head and one to the tail at each
/// corner of its belt; any other not at all.
pub proof fn law_a_selected_bone_is_filled(k: int)
    requires
        0 <= k < 4,
    ensures
        filled_faces(false).len() == 0,
        filled_faces(true).len() == 8,
        filled_faces(true)[2 * k].0 is Head,
        filled_faces(true)[2 * k + 1].0 is Tail,
        filled_faces(true)[2 * k].1 == BoneCorner::Belt(k as u8),
        filled_faces(true)[2 * k + 1].1 == BoneCorner::Belt(k as u8),
        filled_faces(true)[2 * k].2 == filled_faces(true)[(2 * k + 2) % 8].1,
        filled_faces(true)[2 * k + 1].2 == filled_faces(true)[2 * k].2,
{
    assert(k == 0 || k == 1 || k == 2 || k == 3);
}

// ---- joints, corners and probes --------------------------------------------

/// How a point is drawn: as a dot, as a ring, or as both.
#[derive(Clone, Copy, Debug, PartialEq, Eq, Structural)]
pub enum PointMark {
    /// It is not drawn.
    Hidden,
    Dot,
    Ring,
    RingedDot,
}

/// How a joint is drawn, and its colour. One outside of the view is not drawn.
pub fn joint_mark(inside: bool, selected: bool) -> (out: (PointMark, Rgba))
    ensures
        out.0 == if inside {
            PointMark::RingedDot
        } else {
            PointMark::Hidden
        },
        out.1 == if selected {
            Rgba { r: 255, g: 190, b: 90, a: 255 }
        } else {
            Rgba { r: 180, g: 190, b: 210, a: 255 }
        },
{
    (
        if inside {
            PointMark::RingedDot
        } else {
            PointMark::Hidden
        },
        if selected {
            Rgba { r: 255, g: 190, b: 90, a: 255 }
        } else {
            Rgba { r: 180, g: 190, b: 210, a: 255 }
        },
    )
}

/// How a corner of a map is drawn: a ring where it is behind the surface. They
/// are only drawn where corners are what is selected.
pub fn corner_mark(shown: bool, behind: bool) -> (out: PointMark)
    ensures
        out == if !shown {
            PointMark::Hidden
        } else if behind {
            PointMark::Ring
        } else {
            PointMark::Dot
        },
{
    if !shown {
        PointMark::Hidden
    } else if behind {
        PointMark::Ring
    } else {
        PointMark::Dot
    }
}

/// How a probe of baked light is drawn. One that is inside of a wall is hollow,
/// rather than hidden.
pub fn probe_mark(inside: bool, dead: bool) -> (out: PointMark)
    ensures
        out == if !inside {
            PointMark::Hidden
        } else if dead {
            PointMark::Ring
        } else {
            PointMark::RingedDot
        },
{
    if !inside {
        PointMark::Hidden
    } else if dead {
        PointMark::Ring
    } else {
        PointMark::RingedDot
    }
}

// ---- tiles -----------------------------------------------------------------

/// What is drawn over a map of tiles.
#[derive(Clone, Copy, Debug, PartialEq, Eq, Structural)]
pub enum TileMark {
    Grid,
    Bounds,
    Collision,
    Selection,
    Band,
    Cursor,
}

/// What is drawn over a map of tiles, from the bottom to the top.
pub open spec fn tile_order() -> Seq<TileMark> {
    seq![
        TileMark::Grid,
        TileMark::Bounds,
        TileMark::Collision,
        TileMark::Selection,
        TileMark::Band,
        TileMark::Cursor,
    ]
}

/// What is drawn over a map of tiles, from the bottom to the top.
pub fn tile_marks() -> (out: Vec<TileMark>)
    ensures
        out@ == tile_order(),
{
    let out: Vec<TileMark> = vec![
        TileMark::Grid,
        TileMark::Bounds,
        TileMark::Collision,
        TileMark::Selection,
        TileMark::Band,
        TileMark::Cursor,
    ];
    assert(out@ =~= tile_order());
    out
}

/// The colour of what is drawn over a map of tiles.
pub fn tile_colour(mark: TileMark) -> (out: Rgba)
    ensures
        out == match mark {
            TileMark::Grid => Rgba { r: 150, g: 165, b: 190, a: 46 },
            TileMark::Bounds => Rgba { r: 150, g: 175, b: 210, a: 150 },
            TileMark::Collision => Rgba { r: 255, g: 110, b: 110, a: 190 },
            TileMark::Selection => Rgba { r: 120, g: 220, b: 255, a: 255 },
            TileMark::Band => Rgba { r: 255, g: 200, b: 80, a: 255 },
            TileMark::Cursor => Rgba { r: 255, g: 255, b: 255, a: 255 },
        },
{
    match mark {
        TileMark::Grid => Rgba { r: 150, g: 165, b: 190, a: 46 },
        TileMark::Bounds => Rgba { r: 150, g: 175, b: 210, a: 150 },
        TileMark::Collision => Rgba { r: 255, g: 110, b: 110, a: 190 },
        TileMark::Selection => Rgba { r: 120, g: 220, b: 255, a: 255 },
        TileMark::Band => Rgba { r: 255, g: 200, b: 80, a: 255 },
        TileMark::Cursor => Rgba { r: 255, g: 255, b: 255, a: 255 },
    }
}

/// What is drawn later is seen: the cursor is over everything.
pub proof fn law_the_cursor_is_on_top(i: int)
    requires
        0 <= i < tile_order().len(),
        tile_order()[i] == TileMark::Cursor,
    ensures
        i == tile_order().len() - 1,
{
}

// ---- maps ------------------------------------------------------------------

/// What is drawn over a map that is edited.
#[derive(Clone, Copy, Debug, PartialEq, Eq, Structural)]
pub enum MapMark {
    Edges,
    SelectedFaces,
    Hover,
    Corners,
    /// The shape that is being drawn out, its base, its height, and where it
    /// climbs to.
    Preview,
    Base,
    Height,
    Arrow,
    /// How large it is.
    Label,
    /// The box that is drawn round things.
    Band,
    Knife,
}

/// What is drawn over a map that is edited, from the bottom to the top.
pub open spec fn map_order() -> Seq<MapMark> {
    seq![
        MapMark::Edges,
        MapMark::SelectedFaces,
        MapMark::Hover,
        MapMark::Corners,
        MapMark::Preview,
        MapMark::Base,
        MapMark::Height,
        MapMark::Arrow,
        MapMark::Label,
        MapMark::Band,
        MapMark::Knife,
    ]
}

/// What is drawn over a map that is edited, from the bottom to the top.
pub fn map_marks() -> (out: Vec<MapMark>)
    ensures
        out@ == map_order(),
{
    let out: Vec<MapMark> = vec![
        MapMark::Edges,
        MapMark::SelectedFaces,
        MapMark::Hover,
        MapMark::Corners,
        MapMark::Preview,
        MapMark::Base,
        MapMark::Height,
        MapMark::Arrow,
        MapMark::Label,
        MapMark::Band,
        MapMark::Knife,
    ];
    assert(out@ =~= map_order());
    out
}

/// The colour of what is selected on a map.
pub open spec fn selected_colour() -> Rgba {
    Rgba { r: 255, g: 200, b: 80, a: 255 }
}

/// The colour of what is not selected, before it fades with the distance.
pub open spec fn wire_colour() -> Rgba {
    Rgba { r: 160, g: 170, b: 185, a: 140 }
}

/// The colour of what is drawn in one over a map.
pub open spec fn map_colour_of(mark: MapMark) -> Option<Rgba> {
    match mark {
        MapMark::SelectedFaces | MapMark::Height | MapMark::Band => Some(selected_colour()),
        MapMark::Hover | MapMark::Label => Some(Rgba { r: 255, g: 255, b: 255, a: 255 }),
        MapMark::Preview | MapMark::Base => Some(Rgba { r: 120, g: 220, b: 255, a: 255 }),
        MapMark::Arrow => Some(Rgba { r: 120, g: 255, b: 170, a: 255 }),
        MapMark::Edges | MapMark::Corners | MapMark::Knife => None,
    }
}

/// The colour of what is drawn in one over a map. Edges, corners and cuts have
/// more than one.
pub fn map_colour(mark: MapMark) -> (out: Option<Rgba>)
    ensures
        out == map_colour_of(mark),
{
    match mark {
        MapMark::SelectedFaces | MapMark::Height | MapMark::Band => Some(
            Rgba { r: 255, g: 200, b: 80, a: 255 },
        ),
        MapMark::Hover | MapMark::Label => Some(Rgba { r: 255, g: 255, b: 255, a: 255 }),
        MapMark::Preview | MapMark::Base => Some(Rgba { r: 120, g: 220, b: 255, a: 255 }),
        MapMark::Arrow => Some(Rgba { r: 120, g: 255, b: 170, a: 255 }),
        MapMark::Edges | MapMark::Corners | MapMark::Knife => None,
    }
}

/// How an edge of a map is drawn.
#[derive(Clone, Copy, Debug, PartialEq, Eq, Structural)]
pub enum EdgeStroke {
    /// It is selected: of this width in tenths, however far it is.
    Selected { tenths: u32, colour: Rgba },
    /// It is not: it gets thinner and fainter with the distance, and more so
    /// where it is `behind` the surface.
    Faded { behind: bool, colour: Rgba },
}

/// How an edge of a map is drawn.
pub open spec fn edge_stroke_of(selected: bool, behind: bool) -> EdgeStroke {
    if selected {
        EdgeStroke::Selected {
            tenths: if behind {
                18
            } else {
                25
            },
            colour: selected_colour(),
        }
    } else {
        EdgeStroke::Faded { behind, colour: wire_colour() }
    }
}

/// How an edge of a map is drawn.
pub fn edge_stroke(selected: bool, behind: bool) -> (out: EdgeStroke)
    ensures
        out == edge_stroke_of(selected, behind),
{
    if selected {
        EdgeStroke::Selected {
            tenths: if behind {
                18
            } else {
                25
            },
            colour: Rgba { r: 255, g: 200, b: 80, a: 255 },
        }
    } else {
        EdgeStroke::Faded { behind, colour: Rgba { r: 160, g: 170, b: 185, a: 140 } }
    }
}

/// A selected edge is found wherever it is: it never fades, and it never looks
/// like one that is not selected.
pub proof fn law_a_selected_edge_stays_findable(behind: bool, other: bool)
    ensures
        edge_stroke_of(true, behind) is Selected,
        edge_stroke_of(true, behind)->Selected_colour == selected_colour(),
        selected_colour().a == 255,
        edge_stroke_of(true, behind) != edge_stroke_of(false, other),
{
}

/// Everything that is drawn over tiles and over a map has its one place in the order.
pub proof fn law_every_mark_has_its_place(t: TileMark, m: MapMark)
    ensures
        tile_order().contains(t),
        tile_order().no_duplicates(),
        map_order().contains(m),
        map_order().no_duplicates(),
        map_order().first() == MapMark::Edges,
        map_order().last() == MapMark::Knife,
{
    let a = tile_order();
    assert(a[0] is Grid && a[1] is Bounds && a[2] is Collision && a[3] is Selection);
    assert(a[4] is Band && a[5] is Cursor);
    let b = map_order();
    assert(b[0] is Edges && b[1] is SelectedFaces && b[2] is Hover && b[3] is Corners);
    assert(b[4] is Preview && b[5] is Base && b[6] is Height && b[7] is Arrow);
    assert(b[8] is Label && b[9] is Band && b[10] is Knife);
}

/// What is selected on a map, the height of a shape and the box have the colour of what is
/// selected; edges, corners and cuts have none that is theirs alone. A shape that is drawn out
/// has the colour of its base.
pub proof fn law_what_is_selected_has_one_colour(m: MapMark)
    ensures
        map_colour_of(m) is None <==> m is Edges || m is Corners || m is Knife,
        map_colour_of(m) == Some(selected_colour()) <==> m is SelectedFaces || m is Height
            || m is Band,
        map_colour_of(MapMark::Preview) == map_colour_of(MapMark::Base),
        map_colour_of(MapMark::Hover) == map_colour_of(MapMark::Label),
        map_colour_of(m) matches Some(c) ==> c.a == 255,
        wire_colour().a < selected_colour().a,
{
}

/// A selected edge is thinner behind the surface than in front of it, and an edge that is not
/// selected keeps the colour of wires and says whether it is behind.
pub proof fn law_an_edge_behind_is_thinner(behind: bool)
    ensures
        edge_stroke_of(true, true)->Selected_tenths < edge_stroke_of(true, false)->Selected_tenths,
        edge_stroke_of(true, true)->Selected_tenths > 0,
        edge_stroke_of(false, behind) == (EdgeStroke::Faded { behind, colour: wire_colour() }),
{
}

/// What lies outside the picture, or is not shown, has no mark; what lies behind something has a
/// ring, and a joint that is selected stands out.
pub proof fn law_what_is_out_of_sight_has_no_mark(
    shown: bool,
    other: bool,
    corner: PointMark,
    probe: PointMark,
    joint: (PointMark, Rgba),
    same: (PointMark, Rgba),
)
    requires
        call_ensures(corner_mark, (shown, other), corner),
        call_ensures(probe_mark, (shown, other), probe),
        call_ensures(joint_mark, (shown, other), joint),
        call_ensures(joint_mark, (shown, !other), same),
    ensures
        corner is Hidden <==> !shown,
        probe is Hidden <==> !shown,
        joint.0 is Hidden <==> !shown,
        corner is Ring <==> shown && other,
        probe is Ring <==> shown && other,
        corner is Dot <==> shown && !other,
        probe is RingedDot <==> shown && !other,
        joint.0 is RingedDot <==> shown,
        joint.0 == same.0,
        joint.1 != same.1,
        joint.1.r > joint.1.b <==> other,
{
}

/// No two marks on a map of tiles are painted alike, and the grid is the palest of them.
pub proof fn law_marks_on_tiles_differ(a: TileMark, b: TileMark, x: Rgba, y: Rgba)
    requires
        call_ensures(tile_colour, (a,), x),
        call_ensures(tile_colour, (b,), y),
    ensures
        x == y ==> a == b,
        a is Grid && !(b is Grid) ==> x.a < y.a,
        a is Selection || a is Band || a is Cursor <==> x.a == 255,
        a is Collision ==> x.r > x.g && x.r > x.b,
{
}

} // verus!
