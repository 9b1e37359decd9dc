//! The Scene and Game views: what each of them shows over its picture, and what
//! a touch of it does.

use crate::lists::{first_place, is_among, place_of};
use crate::selection::{Editor, Tool};
use crate::text::{copy_of, joined, small_letters, strip_front, to_small_letters, without_front};
use vstd::prelude::*;

verus! {

// ---- what is shown ---------------------------------------------------------

/// A colour: red, green, blue, and how solid it is.
#[derive(Clone, Copy, Debug, PartialEq, Eq, Structural)]
pub struct Rgba {
    pub r: u8,
    pub g: u8,
    pub b: u8,
    pub a: u8,
}

/// The state that a view is drawn from.
#[derive(Clone, Copy, Debug, PartialEq, Eq, Structural)]
pub struct ViewState {
    /// Is this the Game view?
    pub game: bool,
    /// Is the game's picture drawn apart from the editor's, and is it there?
    pub offscreen: bool,
    pub picture: bool,
    pub has_active_camera: bool,
    pub playing: bool,
    pub tool: Tool,
    /// Is a game running that the map tools are kept from?
    pub map_playing: bool,
    /// Is a shape of a screen simulated?
    pub aspect: bool,
}

/// The panels over a view.
#[derive(Clone, Copy, Debug, PartialEq, Eq, Structural)]
pub struct Panels {
    /// The game's own picture.
    pub picture: bool,
    /// The warning that no camera is active.
    pub no_camera: bool,
    /// The banner that says that edits are thrown away.
    pub banner: bool,
    pub tools: bool,
    pub map_hud: bool,
    pub gizmos: bool,
    /// The frame of the simulated screen.
    pub device: bool,
}

/// The panels over a view.
pub open spec fn panels_of(v: ViewState) -> Panels {
    Panels {
        picture: v.game && v.offscreen && v.picture,
        no_camera: v.game && !v.has_active_camera,
        banner: v.playing,
        tools: !v.game,
        map_hud: !v.game && v.tool == Tool::MapEdit && !v.map_playing,
        gizmos: !v.game,
        device: v.aspect,
    }
}

/// The panels over a view. The editor's own are over the Scene view alone; the
/// banner is over both while a game is playing.
pub fn panels(v: ViewState) -> (out: Panels)
    ensures
        out == panels_of(v),
{
    Panels {
        picture: v.game && v.offscreen && v.picture,
        no_camera: v.game && !v.has_active_camera,
        banner: v.playing,
        tools: !v.game,
        map_hud: !v.game && v.tool == Tool::MapEdit && !v.map_playing,
        gizmos: !v.game,
        device: v.aspect,
    }
}

/// What is painted over the picture, bottom to top.
#[derive(Clone, Copy, Debug, PartialEq, Eq, Structural)]
pub enum Layer {
    Gizmo,
    TerrainBrush,
    VertexBrush,
    Tiles,
    MapEdit,
    Cameras,
    Volumes,
    Lights,
    Rigs,
    Probes,
    Physics,
    TerrainWire,
    NavWire,
    ScriptLines,
    Handles,
    Overlays,
    Particles,
    MeshWire,
}

/// All of it, in the order in which it is painted.
pub open spec fn all_layers() -> Seq<Layer> {
    seq![
        Layer::Gizmo,
        Layer::TerrainBrush,
        Layer::VertexBrush,
        Layer::Tiles,
        Layer::MapEdit,
        Layer::Cameras,
        Layer::Volumes,
        Layer::Lights,
        Layer::Rigs,
        Layer::Probes,
        Layer::Physics,
        Layer::TerrainWire,
        Layer::NavWire,
        Layer::ScriptLines,
        Layer::Handles,
        Layer::Overlays,
        Layer::Particles,
        Layer::MeshWire,
    ]
}

/// Is it painted? `there` says whether there is any of it: of the lines that
/// scripts draw, whether there are any for this view.
pub open spec fn is_painted(layer: Layer, game: bool, there: bool) -> bool {
    there && (!game || layer == Layer::ScriptLines)
}

/// What is painted over the picture, in order.
pub fn painted_layers(game: bool, there: &Vec<Layer>) -> (out: Vec<Layer>)
    ensures
        out@ == all_layers().filter(|l: Layer| is_painted(l, game, there@.contains(l))),
{
    let all: Vec<Layer> = vec![
        Layer::Gizmo,
        Layer::TerrainBrush,
        Layer::VertexBrush,
        Layer::Tiles,
        Layer::MapEdit,
        Layer::Cameras,
        Layer::Volumes,
        Layer::Lights,
        Layer::Rigs,
        Layer::Probes,
        Layer::Physics,
        Layer::TerrainWire,
        Layer::NavWire,
        Layer::ScriptLines,
        Layer::Handles,
        Layer::Overlays,
        Layer::Particles,
        Layer::MeshWire,
    ];
    assert(all@ =~= all_layers());
    let ghost keep = |l: Layer| is_painted(l, game, there@.contains(l));
    let mut out: Vec<Layer> = Vec::new();
    let mut i: usize = 0;
    proof {
        crate::lists::lemma_filter_none(all@, keep);
    }
    while i < all.len()
        invariant
            i <= all.len(),
            keep == (|l: Layer| is_painted(l, game, there@.contains(l))),
            out@ == all@.take(i as int).filter(keep),
        decreases all.len() - i,
    {
        proof {
            crate::lists::lemma_filter_step(all@, i as int, keep);
        }
        let layer: Layer = all[i];
        if has_layer(there, layer) && (!game || layer == Layer::ScriptLines) {
            out.push(layer);
        }
        i += 1;
    }
    assert(all@.take(i as int) =~= all@);
    out
}

/// Is `layer` among `there`?
fn has_layer(there: &Vec<Layer>, layer: Layer) -> (out: bool)
    ensures
        out == there@.contains(layer),
{
    let mut i: usize = 0;
    while i < there.len()
        invariant
            i <= there.len(),
            forall|j: int| 0 <= j < i ==> there@[j] != layer,
        decreases there.len() - i,
    {
        if there[i] == layer {
            assert(there@[i as int] == layer);
            return true;
        }
        i += 1;
    }
    false
}

/// The Game view shows what a player would see: none of the editor's own panels,
/// and of what is painted over the picture only the lines that scripts draw.
pub proof fn law_the_game_view_stays_clean(v: ViewState, layer: Layer, there: bool)
    requires
        v.game,
    ensures
        !panels_of(v).tools,
        !panels_of(v).map_hud,
        !panels_of(v).gizmos,
        is_painted(layer, true, there) ==> layer == Layer::ScriptLines,
{
}

/// The colour of what is painted in one colour.
pub open spec fn layer_colour(layer: Layer) -> Option<Rgba> {
    match layer {
        Layer::TerrainBrush => Some(Rgba { r: 255, g: 230, b: 120, a: 255 }),
        Layer::VertexBrush => Some(Rgba { r: 255, g: 120, b: 220, a: 255 }),
        Layer::Volumes => Some(Rgba { r: 120, g: 190, b: 240, a: 170 }),
        Layer::Lights => Some(Rgba { r: 245, g: 210, b: 110, a: 255 }),
        Layer::Physics => Some(Rgba { r: 110, g: 220, b: 210, a: 255 }),
        Layer::TerrainWire => Some(Rgba { r: 235, g: 225, b: 120, a: 130 }),
        Layer::MeshWire => Some(Rgba { r: 120, g: 220, b: 220, a: 120 }),
        _ => None,
    }
}

/// The colour of what is painted in one colour.
pub fn colour_of(layer: Layer) -> (out: Option<Rgba>)
    ensures
        out == layer_colour(layer),
{
    match layer {
        Layer::TerrainBrush => Some(Rgba { r: 255, g: 230, b: 120, a: 255 }),
        Layer::VertexBrush => Some(Rgba { r: 255, g: 120, b: 220, a: 255 }),
        Layer::Volumes => Some(Rgba { r: 120, g: 190, b: 240, a: 170 }),
        Layer::Lights => Some(Rgba { r: 245, g: 210, b: 110, a: 255 }),
        Layer::Physics => Some(Rgba { r: 110, g: 220, b: 210, a: 255 }),
        Layer::TerrainWire => Some(Rgba { r: 235, g: 225, b: 120, a: 130 }),
        Layer::MeshWire => Some(Rgba { r: 120, g: 220, b: 220, a: 120 }),
        _ => None,
    }
}

/// The colour of the outline of an element.
pub fn outline_colour(selected: bool) -> (out: Rgba)
    ensures
        out == if selected {
            Rgba { r: 255, g: 180, b: 60, a: 255 }
        } else {
            Rgba { r: 80, g: 200, b: 255, a: 170 }
        },
{
    if selected {
        Rgba { r: 255, g: 180, b: 60, a: 255 }
    } else {
        Rgba { r: 80, g: 200, b: 255, a: 170 }
    }
}

/// The colour of a camera.
pub fn camera_colour(active: bool) -> (out: Rgba)
    ensures
        out == if active {
            Rgba { r: 120, g: 230, b: 140, a: 255 }
        } else {
            Rgba { r: 150, g: 160, b: 175, a: 255 }
        },
{
    if active {
        Rgba { r: 120, g: 230, b: 140, a: 255 }
    } else {
        Rgba { r: 150, g: 160, b: 175, a: 255 }
    }
}

/// The colour of a bone.
pub fn bone_colour(selected: bool) -> (out: Rgba)
    ensures
        out == if selected {
            Rgba { r: 255, g: 190, b: 90, a: 255 }
        } else {
            Rgba { r: 225, g: 225, b: 235, a: 255 }
        },
{
    if selected {
        Rgba { r: 255, g: 190, b: 90, a: 255 }
    } else {
        Rgba { r: 225, g: 225, b: 235, a: 255 }
    }
}

/// What of a cut is drawn.
#[derive(Clone, Copy, Debug, PartialEq, Eq, Structural)]
pub struct KnifePaint {
    pub colour: Rgba,
    /// The line of the cut.
    pub line: bool,
    /// Where it would end: a ring on a corner that is there, a dot on an edge.
    pub end: Option<KnifeEnd>,
    /// Why it would be refused.
    pub why: bool,
    /// Where it began.
    pub start: bool,
}

/// Where a cut would end.
#[derive(Clone, Copy, Debug, PartialEq, Eq, Structural)]
pub enum KnifeEnd {
    Ring,
    Dot,
}

/// What of a cut is drawn. `from` says whether it has begun, `to` whether it has
/// an end (and whether that is a corner), and `refused` whether it would be
/// refused: then it is grey, and says why at its end.
pub fn knife_paint(from: bool, to: Option<bool>, refused: bool) -> (out: KnifePaint)
    ensures
        out.colour == if refused {
            Rgba { r: 150, g: 150, b: 160, a: 255 }
        } else {
            Rgba { r: 255, g: 120, b: 120, a: 255 }
        },
        out.line == (from && to is Some),
        out.end == match to {
            Some(true) => Some(KnifeEnd::Ring),
            Some(false) => Some(KnifeEnd::Dot),
            None => None,
        },
        out.why == (refused && to is Some),
        out.start == from,
{
    let colour: Rgba = if refused {
        Rgba { r: 150, g: 150, b: 160, a: 255 }
    } else {
        Rgba { r: 255, g: 120, b: 120, a: 255 }
    };
    match to {
        Some(corner) => {
            let end: KnifeEnd = if corner {
                KnifeEnd::Ring
            } else {
                KnifeEnd::Dot
            };
            KnifePaint { colour, line: from, end: Some(end), why: refused, start: from }
        },
        None => KnifePaint { colour, line: false, end: None, why: false, start: from },
    }
}

/// A ring of points with its first point behind its last, so that a line along
/// them closes. A ring of fewer than `least` points is not drawn.
pub fn closed_ring(ring: &Vec<u64>, least: usize) -> (out: Option<Vec<u64>>)
    ensures
        if ring@.len() > 0 && ring@.len() >= least {
            out matches Some(o) && o@ == ring@.push(ring@[0])
        } else {
            out is None
        },
{
    if ring.len() == 0 || ring.len() < least {
        return None;
    }
    let mut out: Vec<u64> = crate::lists::copied(ring);
    out.push(ring[0]);
    Some(out)
}

/// What is done with a package's panel.
#[derive(Clone, Copy, Debug, PartialEq, Eq, Structural)]
pub enum OverlayStep {
    /// It is closed, or it failed: it takes no room.
    Skip,
    /// There is no room left for it, nor for any behind it.
    Stop,
    Draw,
}

/// What is done with a package's panel. `room` says whether there is room for it
/// below those that are drawn.
pub fn overlay_step(open: bool, failed: bool, room: bool) -> (out: OverlayStep)
    ensures
        out == if !open || failed {
            OverlayStep::Skip
        } else if !room {
            OverlayStep::Stop
        } else {
            OverlayStep::Draw
        },
{
    if !open || failed {
        OverlayStep::Skip
    } else if !room {
        OverlayStep::Stop
    } else {
        OverlayStep::Draw
    }
}

/// Each panel is over a view for its own reason: what is the game's is over the Game view,
/// what is the editor's over the Scene view, the banner over both while a game is playing, and
/// the frame of a screen wherever one is simulated.
pub proof fn law_a_panel_is_where_it_belongs(v: ViewState)
    ensures
        ({
            let p = panels_of(v);
            &&& p.picture <==> v.game && v.offscreen && v.picture
            &&& p.no_camera <==> v.game && !v.has_active_camera
            &&& p.banner == v.playing
            &&& p.tools == !v.game && p.gizmos == !v.game
            &&& p.map_hud <==> !v.game && v.tool is MapEdit && !v.map_playing
            &&& p.device == v.aspect
            &&& p.map_hud ==> p.tools
            &&& p.picture || p.no_camera ==> !p.tools
        }),
{
}

/// The Scene view is painted with all that there is, the lines of scripts are painted in both
/// views, and what is not there in neither.
pub proof fn law_all_that_is_there_is_painted(layer: Layer, game: bool)
    ensures
        is_painted(layer, false, true),
        is_painted(Layer::ScriptLines, game, true),
        !is_painted(layer, game, false),
{
}

/// Everything that can be painted is painted once, in one order.
pub proof fn law_every_layer_has_its_place(layer: Layer)
    ensures
        all_layers().contains(layer),
        all_layers().no_duplicates(),
{
    let all = all_layers();
    assert(all[0] is Gizmo && all[1] is TerrainBrush && all[2] is VertexBrush && all[3] is Tiles);
    assert(all[4] is MapEdit && all[5] is Cameras && all[6] is Volumes && all[7] is Lights);
    assert(all[8] is Rigs && all[9] is Probes && all[10] is Physics && all[11] is TerrainWire);
    assert(all[12] is NavWire && all[13] is ScriptLines && all[14] is Handles);
    assert(all[15] is Overlays && all[16] is Particles && all[17] is MeshWire);
}

/// What is painted in one colour has a colour of its own. Brushes, lights and bodies are solid;
/// volumes and wires are seen through.
pub proof fn law_a_layer_has_its_own_colour(a: Layer, b: Layer)
    ensures
        layer_colour(a) is Some && layer_colour(a) == layer_colour(b) ==> a == b,
        layer_colour(a) is Some <==> a is TerrainBrush || a is VertexBrush || a is Volumes
            || a is Lights || a is Physics || a is TerrainWire || a is MeshWire,
        layer_colour(a) matches Some(c) ==> (c.a < 255 <==> a is Volumes || a is TerrainWire
            || a is MeshWire),
{
}

// ---- the elements of the game's own screens --------------------------------

/// How an element is touched.
#[derive(Clone, Copy, Debug, PartialEq, Eq, Structural)]
pub struct Touch {
    pub hovered: bool,
    pub clicked: bool,
    pub drag_started: bool,
    pub dragged: bool,
}

/// What a touch of an element comes to.
#[derive(Clone, Copy, Debug, PartialEq, Eq, Structural)]
pub struct TouchStep {
    /// Was it selected before?
    pub selected: bool,
    /// Does the pointer belong to it, so that nothing behind it is picked?
    pub hot: bool,
    /// Does it move along with the pointer?
    pub moves: bool,
    /// Does it show its handles?
    pub handles: bool,
}

/// Does a touch select the element? A click does, and so does a drag that starts
/// on one that is not selected.
pub open spec fn touch_selects(touch: Touch, selected: bool) -> bool {
    touch.clicked || (touch.drag_started && !selected)
}

/// The selected nodes after an element was touched. A selection that is held
/// stays as it is.
pub open spec fn after_touch(
    nodes: Seq<u64>,
    held: bool,
    entity: Option<u64>,
    touch: Touch,
) -> Seq<u64> {
    match entity {
        Some(e) => if touch_selects(touch, nodes.contains(e)) && !held {
            seq![e]
        } else {
            nodes
        },
        None => nodes,
    }
}

/// What a touch of an element comes to. `entity` is the node of the element.
pub fn touch_element(ed: &mut Editor, entity: Option<u64>, touch: Touch) -> (out: TouchStep)
    ensures
        final(ed).selection@ == after_touch(
            old(ed).selection@,
            old(ed).selection_locked,
            entity,
            touch,
        ),
        *final(ed) == (Editor { selection: final(ed).selection, ..*old(ed) }),
        out.hot == (touch.hovered || touch.dragged),
        out.selected == (entity matches Some(e) && old(ed).selection@.contains(e)),
        out.moves == (touch.dragged && (entity matches Some(e) && final(ed).selection@.contains(
            e,
        ))),
        out.handles == (out.selected && old(ed).tool == Tool::Rect),
{
    let selected: bool = match entity {
        Some(e) => is_among(&ed.selection, e),
        None => false,
    };
    let picks: bool = touch.clicked || (touch.drag_started && !selected);
    if picks && !ed.selection_gesture_blocked() {
        match entity {
            Some(e) => {
                let mut only: Vec<u64> = Vec::new();
                only.push(e);
                assert(only@ =~= seq![e]);
                ed.selection = only;
            },
            None => {},
        }
    }
    let in_hand: bool = match entity {
        Some(e) => is_among(&ed.selection, e),
        None => false,
    };
    TouchStep {
        selected,
        hot: touch.hovered || touch.dragged,
        moves: touch.dragged && in_hand,
        handles: selected && ed.tool == Tool::Rect,
    }
}

/// An element is grabbed and moved in one go: a drag that starts on it moves it
/// at once, unless another selection is held.
pub proof fn law_one_gesture_grabs_and_moves(nodes: Seq<u64>, e: u64, touch: Touch)
    requires
        touch.drag_started,
    ensures
        after_touch(nodes, false, Some(e), touch).contains(e),
        after_touch(nodes, true, Some(e), touch) == nodes,
{
    assert(seq![e][0] == e);
}

/// The entry that the drag of an element is added to: the one that it has
/// already in this frame, or `None` where it needs a new one.
pub fn move_slot(moved: &Vec<u64>, element: u64) -> (out: Option<usize>)
    ensures
        match out {
            Some(i) => i < moved@.len() && i == first_place(moved@, element) && moved@[i as int]
                == element,
            None => !moved@.contains(element),
        },
{
    let i: usize = place_of(moved, element);
    if i < moved.len() {
        Some(i)
    } else {
        None
    }
}

/// A handle on the edge of an element: which way it pulls, across and down.
#[derive(Clone, Copy, Debug, PartialEq, Eq, Structural)]
pub struct ResizeHandle {
    pub across: i8,
    pub down: i8,
}

/// The ways the handles pull: the corners, and the middles of the sides.
pub open spec fn all_pulls() -> Seq<(int, int)> {
    seq![(-1, -1), (0, -1), (1, -1), (-1, 0), (1, 0), (-1, 1), (0, 1), (1, 1)]
}

/// The ways that handles pull.
pub open spec fn pulls(handles: Seq<ResizeHandle>) -> Seq<(int, int)> {
    handles.map_values(|h: ResizeHandle| (h.across as int, h.down as int))
}

/// The handles, from the top left to the bottom right.
pub fn resize_handles() -> (out: Vec<ResizeHandle>)
    ensures
        pulls(out@) == all_pulls(),
{
    let out: Vec<ResizeHandle> = vec![
        ResizeHandle { across: -1, down: -1 },
        ResizeHandle { across: 0, down: -1 },
        ResizeHandle { across: 1, down: -1 },
        ResizeHandle { across: -1, down: 0 },
        ResizeHandle { across: 1, down: 0 },
        ResizeHandle { across: -1, down: 1 },
        ResizeHandle { across: 0, down: 1 },
        ResizeHandle { across: 1, down: 1 },
    ];
    assert(pulls(out@) =~= all_pulls());
    out
}

/// A resize that is under way: the element, and whether its left and its top
/// side are pulled.
#[derive(Clone, Copy, Debug, PartialEq, Eq, Structural)]
pub struct Resize {
    pub element: u64,
    pub from_left: bool,
    pub from_top: bool,
}

/// What the drag of a handle does: the resize that is under way from now on, and
/// whether the drag is added to the one that was (or else takes its place).
pub fn resize_slot(current: Option<Resize>, element: u64, handle: ResizeHandle) -> (out: (
    Resize,
    bool,
))
    ensures
        out.0 == (Resize { element, from_left: handle.across < 0, from_top: handle.down < 0 }),
        out.1 == (current == Some(out.0)),
{
    let now: Resize = Resize { element, from_left: handle.across < 0, from_top: handle.down < 0 };
    let goes_on: bool = match current {
        Some(r) => r.element == now.element && r.from_left == now.from_left && r.from_top
            == now.from_top,
        None => false,
    };
    (now, goes_on)
}

/// Every handle pulls a side, no two pull the same sides, and none pulls a side
/// and the opposite one.
pub proof fn law_every_handle_pulls_its_own_sides(i: int, j: int)
    requires
        0 <= i < all_pulls().len(),
        0 <= j < all_pulls().len(),
    ensures
        all_pulls()[i] != (0int, 0int),
        all_pulls()[i] == all_pulls()[j] ==> i == j,
        -1 <= all_pulls()[i].0 <= 1,
        -1 <= all_pulls()[i].1 <= 1,
{
}

/// A click selects the element that was clicked, and it alone; a drag that starts on one that
/// is not selected does too, and on one that is selected leaves all that is. No other touch
/// selects anything, and none does while a selection is held.
pub proof fn law_a_touch_selects_one_element(nodes: Seq<u64>, e: u64, touch: Touch)
    ensures
        after_touch(nodes, true, Some(e), touch) == nodes,
        after_touch(nodes, false, None, touch) == nodes,
        touch.clicked ==> after_touch(nodes, false, Some(e), touch) == seq![e],
        touch.drag_started && !nodes.contains(e) ==> after_touch(nodes, false, Some(e), touch)
            == seq![e],
        touch.drag_started && !touch.clicked && nodes.contains(e) ==> after_touch(
            nodes,
            false,
            Some(e),
            touch,
        ) == nodes,
        !touch.clicked && !touch.drag_started ==> after_touch(nodes, false, Some(e), touch) == nodes,
{
}

/// There is a handle for every way in which sides can be pulled.
pub proof fn law_every_side_can_be_pulled(across: int, down: int)
    requires
        -1 <= across <= 1,
        -1 <= down <= 1,
    ensures
        all_pulls().contains((across, down)) <==> (across, down) != (0int, 0int),
{
    let all = all_pulls();
    assert(all[0] == (-1int, -1int) && all[1] == (0int, -1int) && all[2] == (1int, -1int));
    assert(all[3] == (-1int, 0int) && all[4] == (1int, 0int));
    assert(all[5] == (-1int, 1int) && all[6] == (0int, 1int) && all[7] == (1int, 1int));
}

// ---- the strip of the map tool ---------------------------------------------

/// What dragging the gizmo of the map tool does.
#[derive(Clone, Copy, Debug, PartialEq, Eq, Structural)]
pub enum MapXform {
    Move,
    Rotate,
    Scale,
}

/// How the handles of the map tool stand.
#[derive(Clone, Copy, Debug, PartialEq, Eq, Structural)]
pub enum MapOrient {
    Normal,
    Local,
    Global,
}

impl MapXform {
    /// What comes behind it.
    pub open spec fn following(self) -> MapXform {
        match self {
            MapXform::Move => MapXform::Rotate,
            MapXform::Rotate => MapXform::Scale,
            MapXform::Scale => MapXform::Move,
        }
    }

    /// What comes behind it.
    pub fn cycled(self) -> (out: MapXform)
        ensures
            out == self.following(),
    {
        match self {
            MapXform::Move => MapXform::Rotate,
            MapXform::Rotate => MapXform::Scale,
            MapXform::Scale => MapXform::Move,
        }
    }
}

impl MapOrient {
    /// What comes behind it.
    pub open spec fn following(self) -> MapOrient {
        match self {
            MapOrient::Normal => MapOrient::Local,
            MapOrient::Local => MapOrient::Global,
            MapOrient::Global => MapOrient::Normal,
        }
    }

    /// What comes behind it.
    pub fn cycled(self) -> (out: MapOrient)
        ensures
            out == self.following(),
    {
        match self {
            MapOrient::Normal => MapOrient::Local,
            MapOrient::Local => MapOrient::Global,
            MapOrient::Global => MapOrient::Normal,
        }
    }
}

/// Cycling goes through all of them and comes back.
pub proof fn law_cycling_comes_round(x: MapXform, o: MapOrient)
    ensures
        x.following().following().following() == x,
        x.following() != x,
        x.following().following() != x,
        o.following().following().following() == o,
        o.following() != o,
        o.following().following() != o,
{
}

/// The shape that is armed after a click on `shape`: a click on the armed one
/// lays it down.
pub fn arm_click(armed: Option<u64>, shape: u64) -> (out: Option<u64>)
    ensures
        out == if armed == Some(shape) {
            None
        } else {
            Some(shape)
        },
{
    match armed {
        Some(a) => if a == shape {
            None
        } else {
            Some(shape)
        },
        None => Some(shape),
    }
}

/// The name of a shape on the strip.
pub fn shape_label(label: &str) -> (out: String)
    ensures
        out@ == without_front(label@, "Model "@),
{
    strip_front(label, "Model ")
}

/// What the strip says of the shape that is being drawn.
pub fn drawing_text(label: &str) -> (out: String)
    ensures
        out@ == "drawing "@ + small_letters(without_front(label@, "Model "@)),
{
    joined("drawing ", to_small_letters(strip_front(label, "Model ").as_str()).as_str())
}

/// What the strip says while nothing is armed and the knife is out.
pub open spec fn knife_hint() -> Seq<char> {
    "✂ click an edge or a corner, then another on the same face  ·  keeps cutting from there  ·  Esc ends the cut"@
}

/// The keys that the strip names.
pub struct HintKeys {
    pub turn_left: String,
    pub turn_right: String,
    pub turn_around: String,
    pub resolution_down: String,
    pub resolution_up: String,
    pub extrude: String,
    pub inset: String,
}

/// What the strip says while a shape is armed.
pub open spec fn armed_hint(keys: HintKeys, detailed: bool) -> Seq<char> {
    "drag the base, then the height  ·  "@ + keys.turn_left@ + " "@ + keys.turn_right@
        + " turn  ·  "@ + keys.turn_around@ + " flip"@ + (if detailed {
        "  ·  "@ + keys.resolution_down@ + " "@ + keys.resolution_up@ + " resolution"@
    } else {
        Seq::empty()
    }) + "  ·  Esc cancel"@
}

/// What the strip says while things are selected.
pub open spec fn select_hint(keys: HintKeys) -> Seq<char> {
    "click to select  ·  drag anywhere to box-select  ·  Shift adds, Ctrl removes  ·  "@
        + keys.extrude@ + " extrude  ·  "@ + keys.inset@ + " inset"@
}

/// The line of the strip: only what applies right now. `armed` says whether a
/// shape is armed, and whether that has a detail that can be set.
pub fn hint(armed: Option<bool>, knife: bool, keys: &HintKeys) -> (out: String)
    ensures
        out@ == match armed {
            Some(detailed) => armed_hint(*keys, detailed),
            None => if knife {
                knife_hint()
            } else {
                select_hint(*keys)
            },
        },
{
    match armed {
        Some(detailed) => {
            let a: String = joined("drag the base, then the height  ·  ", keys.turn_left.as_str());
            let b: String = joined(joined(a.as_str(), " ").as_str(), keys.turn_right.as_str());
            let c: String = joined(
                joined(b.as_str(), " turn  ·  ").as_str(),
                keys.turn_around.as_str(),
            );
            let d: String = joined(c.as_str(), " flip");
            if detailed {
                let e: String = joined("  ·  ", keys.resolution_down.as_str());
                let f: String = joined(
                    joined(e.as_str(), " ").as_str(),
                    keys.resolution_up.as_str(),
                );
                let g: String = joined(f.as_str(), " resolution");
                let out: String = joined(joined(d.as_str(), g.as_str()).as_str(), "  ·  Esc cancel");
                assert(out@ =~= armed_hint(*keys, true));
                out
            } else {
                let out: String = joined(d.as_str(), "  ·  Esc cancel");
                assert(out@ =~= armed_hint(*keys, false));
                out
            }
        },
        None => if knife {
            copy_of(
                "✂ click an edge or a corner, then another on the same face  ·  keeps cutting from there  ·  Esc ends the cut",
            )
        } else {
            let a: String = joined(
                "click to select  ·  drag anywhere to box-select  ·  Shift adds, Ctrl removes  ·  ",
                keys.extrude.as_str(),
            );
            let b: String = joined(
                joined(a.as_str(), " extrude  ·  ").as_str(),
                keys.inset.as_str(),
            );
            joined(b.as_str(), " inset")
        },
    }
}

/// What is said over the button of a mode: how it is chosen.
pub fn mode_text(plural: &str, key: &str, cycle_key: &str) -> (out: String)
    ensures
        out@ == "select "@ + plural@ + " — "@ + key@ + " (or "@ + cycle_key@
            + " to cycle). Your selection converts rather than being dropped."@,
{
    let a: String = joined(joined("select ", plural).as_str(), " — ");
    let b: String = joined(joined(a.as_str(), key).as_str(), " (or ");
    joined(
        joined(b.as_str(), cycle_key).as_str(),
        " to cycle). Your selection converts rather than being dropped.",
    )
}

/// What is said over the button that selects everything.
pub fn select_all_text(mode: &str, key: &str) -> (out: String)
    ensures
        out@ == "select every "@ + mode@ + " in this mesh  (Ctrl+A, or "@ + key@ + ")"@,
{
    let a: String = joined(joined("select every ", mode).as_str(), " in this mesh  (Ctrl+A, or ");
    joined(joined(a.as_str(), key).as_str(), ")")
}

/// What is said over the button that selects nothing.
pub fn select_none_text(key: &str) -> (out: String)
    ensures
        out@ == "clear it  ("@ + key@ + ")"@,
{
    joined(joined("clear it  (", key).as_str(), ")")
}

/// What is said over the button that swaps what is selected.
pub fn invert_text(key: &str) -> (out: String)
    ensures
        out@ == "swap selected for unselected  ("@ + key@ + ")"@,
{
    joined(joined("swap selected for unselected  (", key).as_str(), ")")
}

/// What is said over the button of the knife.
pub fn knife_text(key: &str) -> (out: String)
    ensures
        out@ == "cut a face from one edge or corner to another  ("@ + key@ + ")"@,
{
    joined(joined("cut a face from one edge or corner to another  (", key).as_str(), ")")
}

/// What is said over the two that cycle: over what the gizmo does, and over how
/// the handles stand.
pub fn cycle_text(gizmo: bool, key: &str) -> (out: String)
    ensures
        out@ == (if gizmo {
            "what the gizmo does — click or "@
        } else {
            "handle orientation — click or "@
        }) + key@ + " to cycle"@,
{
    let head: &str = if gizmo {
        "what the gizmo does — click or "
    } else {
        "handle orientation — click or "
    };
    joined(joined(head, key).as_str(), " to cycle")
}

/// The strip of the map tool.
#[derive(Clone, Copy, Debug, PartialEq, Eq, Structural)]
pub struct MapHud {
    pub xform: MapXform,
    pub orient: MapOrient,
    /// Is the list of shapes open?
    pub open: bool,
    /// Is the knife out?
    pub knife: bool,
    /// The shape that is armed.
    pub armed: Option<u64>,
}

/// A click on the strip.
#[derive(Clone, Copy, Debug, PartialEq, Eq, Structural)]
pub enum HudClick {
    /// On the button of a mode.
    Mode(u64),
    All,
    Nothing,
    Invert,
    Knife,
    Gizmo,
    Orient,
    /// On the button that opens the list of shapes.
    Picker,
    /// On a shape of that list.
    Shape(u64),
}

/// What the editor is asked for.
#[derive(Clone, Copy, Debug, PartialEq, Eq, Structural)]
pub enum HudCommand {
    SetMode(u64),
    SelectAll,
    SelectNone,
    SelectInvert,
    SetKnife(bool),
    SetArmed(Option<u64>),
}

/// What the editor is asked for by a click on the strip.
pub open spec fn hud_command(h: MapHud, c: HudClick) -> Option<HudCommand> {
    match c {
        HudClick::Mode(m) => Some(HudCommand::SetMode(m)),
        HudClick::All => Some(HudCommand::SelectAll),
        HudClick::Nothing => Some(HudCommand::SelectNone),
        HudClick::Invert => Some(HudCommand::SelectInvert),
        HudClick::Knife => Some(HudCommand::SetKnife(!h.knife)),
        HudClick::Shape(shape) => if h.open {
            Some(
                HudCommand::SetArmed(
                    if h.armed == Some(shape) {
                        None
                    } else {
                        Some(shape)
                    },
                ),
            )
        } else {
            None
        },
        HudClick::Gizmo | HudClick::Orient | HudClick::Picker => None,
    }
}

/// The strip after a click on it. What the editor is asked for comes with its
/// next frame.
pub open spec fn hud_after(h: MapHud, c: HudClick) -> MapHud {
    match c {
        HudClick::Gizmo => MapHud { xform: h.xform.following(), ..h },
        HudClick::Orient => MapHud { orient: h.orient.following(), ..h },
        HudClick::Picker => MapHud { open: !h.open, ..h },
        _ => h,
    }
}

impl MapHud {
    /// A click on the strip: what the editor is asked for by it. A shape can only
    /// be clicked where the list of them is open.
    pub fn click(&mut self, c: HudClick) -> (out: Option<HudCommand>)
        ensures
            *final(self) == hud_after(*old(self), c),
            out == hud_command(*old(self), c),
    {
        match c {
            HudClick::Mode(m) => Some(HudCommand::SetMode(m)),
            HudClick::All => Some(HudCommand::SelectAll),
            HudClick::Nothing => Some(HudCommand::SelectNone),
            HudClick::Invert => Some(HudCommand::SelectInvert),
            HudClick::Knife => Some(HudCommand::SetKnife(!self.knife)),
            HudClick::Gizmo => {
                self.xform = self.xform.cycled();
                None
            },
            HudClick::Orient => {
                self.orient = self.orient.cycled();
                None
            },
            HudClick::Picker => {
                self.open = !self.open;
                None
            },
            HudClick::Shape(shape) => if self.open {
                Some(HudCommand::SetArmed(arm_click(self.armed, shape)))
            } else {
                None
            },
        }
    }
}

/// A click either turns something on the strip or asks the editor for something.
/// The knife and a shape that are clicked twice are as they were.
pub proof fn law_a_click_on_the_strip_does_one_thing(h: MapHud, c: HudClick)
    ensures
        hud_command(h, c) is Some ==> hud_after(h, c) == h,
        c == HudClick::Knife ==> hud_command(MapHud { knife: !h.knife, ..h }, c) == Some(
            HudCommand::SetKnife(h.knife),
        ),
        c matches HudClick::Shape(s) ==> h.open ==> hud_command(
            MapHud { armed: Some(s), ..h },
            c,
        ) == Some(HudCommand::SetArmed(None)),
        hud_after(hud_after(h, HudClick::Picker), HudClick::Picker) == h,
{
}

/// Behind moving comes turning and behind turning scaling; behind the normal comes the node's
/// own way and behind that the world's.
pub proof fn law_one_comes_behind_the_other(x: MapXform, o: MapOrient)
    ensures
        x is Move <==> x.following() is Rotate,
        x is Rotate <==> x.following() is Scale,
        x is Scale <==> x.following() is Move,
        o is Normal <==> o.following() is Local,
        o is Local <==> o.following() is Global,
        o is Global <==> o.following() is Normal,
{
}

/// A click asks for what its button says, and for nothing else; a mode and a shape are the very
/// ones that were clicked.
pub proof fn law_a_click_asks_for_what_it_says(h: MapHud, c: HudClick)
    ensures
        ({
            let cmd = hud_command(h, c);
            &&& (cmd matches Some(HudCommand::SetMode(_))) <==> c is Mode
            &&& cmd == Some(HudCommand::SelectAll) <==> c is All
            &&& cmd == Some(HudCommand::SelectNone) <==> c is Nothing
            &&& cmd == Some(HudCommand::SelectInvert) <==> c is Invert
            &&& (cmd matches Some(HudCommand::SetKnife(_))) <==> c is Knife
            &&& (cmd matches Some(HudCommand::SetArmed(_))) <==> c is Shape && h.open
            &&& cmd matches Some(HudCommand::SetMode(m)) ==> c == HudClick::Mode(m)
            &&& cmd matches Some(HudCommand::SetKnife(on)) ==> on != h.knife
            &&& cmd matches Some(HudCommand::SetArmed(Some(s))) ==> c == HudClick::Shape(s)
                && h.armed != Some(s)
            &&& cmd matches Some(HudCommand::SetArmed(None)) ==> c == HudClick::Shape(
                h.armed->Some_0,
            ) && h.armed is Some
        }),
{
}

/// A click turns what its button turns, and nothing else on the strip.
pub proof fn law_a_click_turns_one_thing(h: MapHud, c: HudClick)
    ensures
        ({
            let n = hud_after(h, c);
            &&& n.xform == if c is Gizmo {
                h.xform.following()
            } else {
                h.xform
            }
            &&& n.orient == if c is Orient {
                h.orient.following()
            } else {
                h.orient
            }
            &&& n.open == (h.open != (c is Picker))
            &&& n.knife == h.knife
            &&& n.armed == h.armed
        }),
{
}

// ---- the way the Scene view is turned --------------------------------------

/// What becomes of the height of a view without perspective.
#[derive(Clone, Copy, Debug, PartialEq, Eq, Structural)]
pub enum OrthoChoice {
    /// The view has perspective.
    Perspective,
    /// It keeps the height that it has.
    Keep,
    /// It gets the height that such a view starts with.
    Start,
}

/// The height that a view without perspective starts with.
pub const ORTHO_HEIGHT: u32 = 12;

/// What becomes of the view when it is locked to a plane, or freed. A locked view
/// has no perspective; a freed one has it again.
pub fn lock_view(locked: bool, ortho: bool) -> (out: OrthoChoice)
    ensures
        out == if !locked {
            OrthoChoice::Perspective
        } else if ortho {
            OrthoChoice::Keep
        } else {
            OrthoChoice::Start
        },
{
    if !locked {
        OrthoChoice::Perspective
    } else if ortho {
        OrthoChoice::Keep
    } else {
        OrthoChoice::Start
    }
}

/// What becomes of the view when its box is ticked, or not.
pub fn set_ortho(on: bool) -> (out: OrthoChoice)
    ensures
        out == if on {
            OrthoChoice::Start
        } else {
            OrthoChoice::Perspective
        },
{
    if on {
        OrthoChoice::Start
    } else {
        OrthoChoice::Perspective
    }
}

/// What the button of the view says.
pub fn view_text(locked: bool, label: &str) -> (out: String)
    ensures
        out@ == if locked {
            "▦ "@ + label@
        } else {
            "▦ View"@
        },
{
    if locked {
        joined("▦ ", label)
    } else {
        copy_of("▦ View")
    }
}

/// What is selected or active is painted otherwise than what is not, and no paler.
pub proof fn law_what_is_selected_stands_out(outline: (Rgba, Rgba), camera: (Rgba, Rgba), bone: (Rgba, Rgba))
    requires
        call_ensures(outline_colour, (true,), outline.0),
        call_ensures(outline_colour, (false,), outline.1),
        call_ensures(camera_colour, (true,), camera.0),
        call_ensures(camera_colour, (false,), camera.1),
        call_ensures(bone_colour, (true,), bone.0),
        call_ensures(bone_colour, (false,), bone.1),
    ensures
        outline.0 != outline.1 && outline.0.a == 255 && outline.1.a < 255,
        camera.0 != camera.1 && camera.0.g > camera.0.r && camera.0.g > camera.0.b,
        bone.0 != bone.1 && bone.0.r > bone.0.b,
        outline.0.r > outline.0.b && outline.1.b > outline.1.r,
{
}

/// A cut is a line only between two ends; where it ends on an edge there is a ring, elsewhere a
/// dot. Why it is refused is said beside its end, and it is painted otherwise then.
pub proof fn law_a_cut_has_two_ends(from: bool, to: Option<bool>, refused: bool, out: KnifePaint)
    requires
        call_ensures(knife_paint, (from, to, refused), out),
    ensures
        out.line ==> out.start && out.end is Some,
        out.start && out.end is Some ==> out.line,
        out.start == from,
        out.end == Some(KnifeEnd::Ring) <==> to == Some(true),
        out.end == Some(KnifeEnd::Dot) <==> to == Some(false),
        out.why <==> refused && out.end is Some,
        out.colour.r > out.colour.b <==> !refused,
{
}

/// An overlay is drawn only where it is open and there is room for it; where there is none the
/// drawing stops, unless there was nothing to draw anyway.
pub proof fn law_an_overlay_needs_room(open: bool, failed: bool, room: bool, out: OverlayStep)
    requires
        call_ensures(overlay_step, (open, failed, room), out),
    ensures
        out is Draw <==> open && !failed && room,
        out is Stop <==> open && !failed && !room,
        out is Skip <==> !open || failed,
{
}

/// A handle on the left or at the top moves that side, and no other does; a resize goes on
/// exactly where the same element is held by the same sides.
pub proof fn law_a_resize_goes_on_by_the_same_sides(
    current: Option<Resize>,
    element: u64,
    handle: ResizeHandle,
    out: (Resize, bool),
)
    requires
        call_ensures(resize_slot, (current, element, handle), out),
    ensures
        out.0.element == element,
        out.0.from_left <==> handle.across < 0,
        out.0.from_top <==> handle.down < 0,
        current is None ==> !out.1,
        current matches Some(c) ==> (out.1 <==> c.element == element && c.from_left == (
        handle.across < 0) && c.from_top == (handle.down < 0)),
{
}

/// A second click on the same shape lets it go; a click on another takes that one up.
pub proof fn law_a_second_click_lets_a_shape_go(armed: Option<u64>, shape: u64, once: Option<u64>, twice: Option<u64>)
    requires
        call_ensures(arm_click, (armed, shape), once),
        call_ensures(arm_click, (once, shape), twice),
    ensures
        once is Some <==> armed != Some(shape),
        once matches Some(s) ==> s == shape && twice is None,
        once is None ==> twice == Some(shape),
{
}

/// A view that is not locked has perspective. A locked one is orthographic, and keeps its height
/// where it was so before. Switching it by hand always starts anew.
pub proof fn law_a_locked_view_keeps_its_height(locked: bool, ortho: bool, by_lock: OrthoChoice, by_hand: OrthoChoice)
    requires
        call_ensures(lock_view, (locked, ortho), by_lock),
        call_ensures(set_ortho, (locked,), by_hand),
    ensures
        by_lock is Perspective <==> !locked,
        by_hand is Perspective <==> !locked,
        by_lock is Keep <==> locked && ortho,
        by_hand is Start <==> locked,
        by_lock != by_hand <==> locked && ortho,
{
}

/// A ring is closed by its own first point, and nothing else is put into it; one that is too
/// short stays open.
pub proof fn law_a_ring_ends_where_it_began(ring: &Vec<u64>, least: usize, out: Option<Vec<u64>>)
    requires
        call_ensures(closed_ring, (ring, least), out),
    ensures
        out is Some <==> ring@.len() > 0 && ring@.len() >= least,
        out matches Some(o) ==> o@.len() == ring@.len() + 1 && o@[0] == o@.last()
            && o@.drop_last() == ring@,
{
    if let Some(o) = out {
        assert(o@.drop_last() =~= ring@);
    }
}

/// What is armed is hinted at first, then the knife, and selecting only where neither is.
pub proof fn law_what_is_armed_is_hinted_at_first(
    armed: Option<bool>,
    knife: bool,
    keys: &HintKeys,
    out: String,
)
    requires
        call_ensures(hint, (armed, knife, keys), out),
    ensures
        armed matches Some(detailed) ==> out@ == armed_hint(*keys, detailed),
        armed is None && knife ==> out@ == knife_hint(),
        armed is None && !knife ==> out@ == select_hint(*keys),
{
}

/// The text on a button begins with what the button does and names its key.
pub proof fn law_a_button_names_its_key(
    what: &str,
    key: &str,
    cycle: &str,
    gizmo: bool,
    mode: String,
    all: String,
    clear: String,
    knife: String,
    turn: String,
)
    requires
        call_ensures(mode_text, (what, key, cycle), mode),
        call_ensures(select_all_text, (what, key), all),
        call_ensures(select_none_text, (key,), clear),
        call_ensures(knife_text, (key,), knife),
        call_ensures(cycle_text, (gizmo, key), turn),
    ensures
        ("select "@ + what@ + " — "@ + key@ + " (or "@ + cycle@).is_prefix_of(mode@),
        ("select every "@ + what@).is_prefix_of(all@),
        (key@ + ")"@).is_suffix_of(all@),
        (key@ + ")"@).is_suffix_of(clear@),
        (key@ + ")"@).is_suffix_of(knife@),
        (key@ + " to cycle"@).is_suffix_of(turn@),
        gizmo ==> "what the gizmo does"@.is_prefix_of(turn@),
        !gizmo ==> "handle orientation"@.is_prefix_of(turn@),
{
    reveal_strlit("what the gizmo does");
    reveal_strlit("handle orientation");
    reveal_strlit("what the gizmo does — click or ");
    reveal_strlit("handle orientation — click or ");
    let m = "select "@ + what@ + " — "@ + key@ + " (or "@ + cycle@;
    assert(mode@.subrange(0, m.len() as int) =~= m);
    let a = "select every "@ + what@;
    assert(all@.subrange(0, a.len() as int) =~= a);
    let k = key@ + ")"@;
    assert(all@.subrange(all@.len() - k.len(), all@.len() as int) =~= k);
    assert(clear@.subrange(clear@.len() - k.len(), clear@.len() as int) =~= k);
    assert(knife@.subrange(knife@.len() - k.len(), knife@.len() as int) =~= k);
    let c = key@ + " to cycle"@;
    assert(turn@.subrange(turn@.len() - c.len(), turn@.len() as int) =~= c);
    let g = if gizmo {
        "what the gizmo does"@
    } else {
        "handle orientation"@
    };
    assert(turn@.subrange(0, g.len() as int) =~= g);
}

/// A locked view is called by the side that it shows; one that is not shows no side.
pub proof fn law_a_locked_view_names_its_side(a: &str, b: &str, x: String, y: String, u: String, v: String)
    requires
        call_ensures(view_text, (true, a), x),
        call_ensures(view_text, (true, b), y),
        call_ensures(view_text, (false, a), u),
        call_ensures(view_text, (false, b), v),
    ensures
        x@ == y@ ==> a@ == b@,
        a@.is_suffix_of(x@),
        u@ == v@,
{
    let n = "▦ "@.len() as int;
    assert(x@.skip(n) =~= a@);
    assert(y@.skip(n) =~= b@);
    assert(x@.subrange(x@.len() - a@.len(), x@.len() as int) =~= a@);
}

/// The hint names the keys that apply: those that turn a shape first, those for its detail only
/// where it has one, and those that extrude and inset while things are selected.
pub proof fn law_a_hint_names_the_keys_that_apply(keys: HintKeys, detailed: bool)
    ensures
        ("drag the base, then the height  ·  "@ + keys.turn_left@ + " "@ + keys.turn_right@
            + " turn  ·  "@ + keys.turn_around@ + " flip"@).is_prefix_of(armed_hint(keys, detailed)),
        detailed ==> (keys.resolution_down@ + " "@ + keys.resolution_up@ + " resolution"@
            + "  ·  Esc cancel"@).is_suffix_of(armed_hint(keys, detailed)),
        (keys.extrude@ + " extrude  ·  "@ + keys.inset@ + " inset"@).is_suffix_of(select_hint(keys)),
{
    let t = armed_hint(keys, detailed);
    let a = "drag the base, then the height  ·  "@ + keys.turn_left@ + " "@ + keys.turn_right@
        + " turn  ·  "@ + keys.turn_around@ + " flip"@;
    assert(t.subrange(0, a.len() as int) =~= a);
    if detailed {
        let b = keys.resolution_down@ + " "@ + keys.resolution_up@ + " resolution"@
            + "  ·  Esc cancel"@;
        assert(t.subrange(t.len() - b.len(), t.len() as int) =~= b);
    }
    let s = select_hint(keys);
    let c = keys.extrude@ + " extrude  ·  "@ + keys.inset@ + " inset"@;
    assert(s.subrange(s.len() - c.len(), s.len() as int) =~= c);
}

/// Touching an element changes the selection alone. The element is moved only while it is
/// dragged and selected, and has handles only where it was selected already and the tool is the
/// one that resizes.
pub proof fn law_a_touch_changes_the_selection_alone(
    ed: &mut Editor,
    entity: Option<u64>,
    touch: Touch,
    out: TouchStep,
)
    requires
        call_ensures(touch_element, (ed, entity, touch), out),
    ensures
        final(ed).tool == old(ed).tool && final(ed).selection_locked == old(ed).selection_locked
            && final(ed).bone_selection == old(ed).bone_selection && final(ed).drag == old(ed).drag,
        out.hot <==> touch.hovered || touch.dragged,
        entity is None ==> !out.selected && !out.moves && !out.handles,
        entity matches Some(e) ==> (out.selected <==> old(ed).selection@.contains(e)),
        entity matches Some(e) ==> (out.moves <==> touch.dragged && final(ed).selection@.contains(
            e,
        )),
        out.handles <==> out.selected && old(ed).tool is Rect,
{
}

} // verus!
